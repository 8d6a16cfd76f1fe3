//! Loading a whole ledger: skip the header, parse every further line, and
//! partition the outcomes.

use vstd::prelude::*;
use crate::split::field_views;
use crate::transaction::{spec_parse_line, Transaction, TransactionView};

verus! {

/// A line the loader could not parse: its original index, the failure's
/// message, and the line's text unchanged.
pub struct RejectedLine {
    pub line_index: usize,
    pub message: String,
    pub raw_text: String,
}

/// The mathematical content of a `RejectedLine`.
pub ghost struct RejectedLineView {
    pub line_index: int,
    pub message: Seq<char>,
    pub raw_text: Seq<char>,
}

impl View for RejectedLine {
    type V = RejectedLineView;

    open spec fn view(&self) -> RejectedLineView {
        RejectedLineView {
            line_index: self.line_index as int,
            message: self.message@,
            raw_text: self.raw_text@,
        }
    }
}

pub open spec fn tx_views(s: Seq<Transaction>) -> Seq<TransactionView> {
    s.map_values(|t: Transaction| t@)
}

pub open spec fn rejected_views(s: Seq<RejectedLine>) -> Seq<RejectedLineView> {
    s.map_values(|l: RejectedLine| l@)
}

/// The records accepted from `lines[i..]`, in input order.
pub open spec fn accepted_from(lines: Seq<Seq<char>>, i: int) -> Seq<TransactionView>
    decreases lines.len() - i,
{
    if i < 0 || i >= lines.len() {
        Seq::empty()
    } else if spec_parse_line(lines[i]) is Ok {
        seq![spec_parse_line(lines[i])->Ok_0] + accepted_from(lines, i + 1)
    } else {
        accepted_from(lines, i + 1)
    }
}

/// The lines rejected from `lines[i..]`, each with its original index and
/// the failure's message, in input order.
pub open spec fn rejected_from(lines: Seq<Seq<char>>, i: int) -> Seq<RejectedLineView>
    decreases lines.len() - i,
{
    if i < 0 || i >= lines.len() {
        Seq::empty()
    } else if spec_parse_line(lines[i]) is Ok {
        rejected_from(lines, i + 1)
    } else {
        seq![
            RejectedLineView {
                line_index: i,
                message: spec_parse_line(lines[i])->Err_0,
                raw_text: lines[i],
            },
        ] + rejected_from(lines, i + 1)
    }
}

/// Every data line lands on exactly one side: accepted and rejected
/// together account for all lines from `i` on.
pub proof fn lemma_partition_count(lines: Seq<Seq<char>>, i: int)
    requires
        0 <= i <= lines.len(),
    ensures
        accepted_from(lines, i).len() + rejected_from(lines, i).len() == lines.len() - i,
    decreases lines.len() - i,
{
    if i < lines.len() {
        lemma_partition_count(lines, i + 1);
    }
}

/// The rejected lines keep their original positions: indices are at least
/// `i`, strictly increasing, and each entry holds exactly the failing
/// line's text and its parse failure's message.
pub proof fn lemma_rejected_indices(lines: Seq<Seq<char>>, i: int)
    requires
        0 <= i,
    ensures
        forall|j: int| 0 <= j < rejected_from(lines, i).len() ==> (#[trigger] rejected_from(
            lines,
            i,
        )[j]).line_index >= i,
        forall|j: int, k: int|
            0 <= j < k < rejected_from(lines, i).len() ==> (#[trigger] rejected_from(
                lines,
                i,
            )[j]).line_index < (#[trigger] rejected_from(lines, i)[k]).line_index,
        forall|j: int| 0 <= j < rejected_from(lines, i).len() ==> {
            let e = #[trigger] rejected_from(lines, i)[j];
            &&& e.line_index < lines.len()
            &&& spec_parse_line(lines[e.line_index]) is Err
            &&& e.message == spec_parse_line(lines[e.line_index])->Err_0
            &&& e.raw_text == lines[e.line_index]
        },
    decreases lines.len() - i,
{
    if i >= lines.len() {
    } else {
        lemma_rejected_indices(lines, i + 1);
        let r = rejected_from(lines, i);
        let tail = rejected_from(lines, i + 1);
        if spec_parse_line(lines[i]) is Ok {
            assert(r == tail);
        } else {
            assert(forall|j: int| 1 <= j < r.len() ==> r[j] == tail[j - 1]);
        }
    }
}

/// Load a whole ledger from its text lines. The first line is the header
/// and is always skipped, even when it would parse. Every further line is
/// parsed: a success appends the record to the accepted side, a failure
/// appends the line's index, message and raw text to the rejected side,
/// both in input order; no line stops the load.
#[verifier::loop_isolation(false)]
pub fn load(lines: &Vec<String>) -> (r: (Vec<Transaction>, Vec<RejectedLine>))
    ensures
        tx_views(r.0@) == accepted_from(field_views(lines@), 1),
        rejected_views(r.1@) == rejected_from(field_views(lines@), 1),
        lines@.len() == 0 ==> r.0@.len() == 0 && r.1@.len() == 0,
        lines@.len() >= 1 ==> r.0@.len() + r.1@.len() == lines@.len() - 1,
{
    let ghost lv: Seq<Seq<char>> = field_views(lines@);
    let mut accepted: Vec<Transaction> = Vec::new();
    let mut rejected: Vec<RejectedLine> = Vec::new();
    let n = lines.len();
    let mut i: usize = 1;
    proof {
        assert(tx_views(accepted@) =~= Seq::<TransactionView>::empty());
        assert(rejected_views(rejected@) =~= Seq::<RejectedLineView>::empty());
    }
    while i < n
        invariant
            1 <= i,
            i <= n || i == 1,
            accepted_from(lv, 1) == tx_views(accepted@) + accepted_from(lv, i as int),
            rejected_from(lv, 1) == rejected_views(rejected@) + rejected_from(lv, i as int),
        decreases n - i,
    {
        let line: &String = &lines[i];
        proof {
            assert(lv[i as int] == lines@[i as int]@);
        }
        let ghost old_accepted = accepted@;
        let ghost old_rejected = rejected@;
        match Transaction::from_csv_line(line.as_str()) {
            Ok(t) => {
                proof {
                    assert(tx_views(old_accepted.push(t)) =~= tx_views(old_accepted) + seq![t@]);
                }
                accepted.push(t);
            },
            Err(message) => {
                let entry = RejectedLine { line_index: i, message, raw_text: line.clone() };
                proof {
                    assert(rejected_views(old_rejected.push(entry)) =~= rejected_views(
                        old_rejected,
                    ) + seq![entry@]);
                }
                rejected.push(entry);
            },
        }
        i = i + 1;
    }
    proof {
        assert(accepted_from(lv, i as int) =~= Seq::<TransactionView>::empty());
        assert(rejected_from(lv, i as int) =~= Seq::<RejectedLineView>::empty());
        assert(tx_views(accepted@) + Seq::<TransactionView>::empty() =~= tx_views(accepted@));
        assert(rejected_views(rejected@) + Seq::<RejectedLineView>::empty() =~= rejected_views(
            rejected@,
        ));
        if lines@.len() >= 1 {
            lemma_partition_count(lv, 1);
            assert(tx_views(accepted@).len() == accepted@.len());
            assert(rejected_views(rejected@).len() == rejected@.len());
        }
    }
    (accepted, rejected)
}

} // verus!
