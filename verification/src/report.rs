//! Aggregation over accepted records: totals by continent, and a filtered
//! read-only view of one continent's records.

use vstd::prelude::*;
use vstd::pervasive::VecAdditionalExecFns;
use crate::location::Continent;
use crate::transaction::Transaction;

verus! {

/// The sum of all amounts, in fixed-point units.
pub open spec fn total_amount(s: Seq<Transaction>) -> int
    decreases s.len(),
{
    if s.len() == 0 {
        0
    } else {
        total_amount(s.drop_last()) + s.last()@.amount
    }
}

/// The sum of the amounts of the records on continent `c`.
pub open spec fn continent_total(s: Seq<Transaction>, c: Continent) -> int
    decreases s.len(),
{
    if s.len() == 0 {
        0
    } else {
        continent_total(s.drop_last(), c) + if s.last()@.continent == c {
            s.last()@.amount as int
        } else {
            0
        }
    }
}

/// The number of records on continent `c`.
pub open spec fn continent_count(s: Seq<Transaction>, c: Continent) -> int
    decreases s.len(),
{
    if s.len() == 0 {
        0
    } else {
        continent_count(s.drop_last(), c) + if s.last()@.continent == c {
            1int
        } else {
            0
        }
    }
}

/// The subsequence of records on continent `c`, in input order.
pub open spec fn filtered_by_continent_spec(s: Seq<Transaction>, c: Continent) -> Seq<Transaction>
    decreases s.len(),
{
    if s.len() == 0 {
        Seq::empty()
    } else {
        filtered_by_continent_spec(s.drop_last(), c) + if s.last()@.continent == c {
            seq![s.last()]
        } else {
            Seq::empty()
        }
    }
}

pub proof fn lemma_continent_count_nonneg(s: Seq<Transaction>, c: Continent)
    ensures
        continent_count(s, c) >= 0,
    decreases s.len(),
{
    if s.len() > 0 {
        lemma_continent_count_nonneg(s.drop_last(), c);
    }
}

/// A continent without records contributes nothing.
pub proof fn lemma_count_zero_total_zero(s: Seq<Transaction>, c: Continent)
    requires
        continent_count(s, c) == 0,
    ensures
        continent_total(s, c) == 0,
    decreases s.len(),
{
    if s.len() > 0 {
        lemma_continent_count_nonneg(s.drop_last(), c);
        lemma_count_zero_total_zero(s.drop_last(), c);
    }
}

/// A continent's total stays within `len` copies of the extreme amounts.
pub proof fn lemma_continent_total_bound(s: Seq<Transaction>, c: Continent)
    ensures
        -(s.len() * 0x8000_0000_0000_0000) <= continent_total(s, c) <= s.len()
            * 0x7FFF_FFFF_FFFF_FFFF,
    decreases s.len(),
{
    if s.len() > 0 {
        lemma_continent_total_bound(s.drop_last(), c);
    }
}

/// Extending the prefix by one record changes only that record's continent.
pub proof fn lemma_continent_snoc(s: Seq<Transaction>, i: int, c: Continent)
    requires
        0 <= i < s.len(),
    ensures
        continent_total(s.take(i + 1), c) == continent_total(s.take(i), c) + (
        if s[i]@.continent == c {
            s[i]@.amount as int
        } else {
            0
        }),
        continent_count(s.take(i + 1), c) == continent_count(s.take(i), c) + (
        if s[i]@.continent == c {
            1int
        } else {
            0
        }),
        filtered_by_continent_spec(s.take(i + 1), c) == filtered_by_continent_spec(s.take(i), c)
            + (if s[i]@.continent == c {
            seq![s[i]]
        } else {
            Seq::<Transaction>::empty()
        }),
{
    assert(s.take(i + 1).drop_last() =~= s.take(i));
    assert(s.take(i + 1).last() == s[i]);
}

/// The five per-continent totals account for every record: summed together
/// they equal the total invested amount.
pub proof fn lemma_totals_partition(s: Seq<Transaction>)
    ensures
        continent_total(s, Continent::NorthAmerica) + continent_total(s, Continent::Europe)
            + continent_total(s, Continent::Asia) + continent_total(s, Continent::Oceania)
            + continent_total(s, Continent::SouthAmerica) == total_amount(s),
    decreases s.len(),
{
    if s.len() > 0 {
        lemma_totals_partition(s.drop_last());
    }
}

/// The filtered records are exactly the contributing set of the continent's
/// total: as many as the continent's count, all on that continent, and
/// their amounts sum to the continent's total.
pub proof fn lemma_filtered_matches(s: Seq<Transaction>, c: Continent)
    ensures
        filtered_by_continent_spec(s, c).len() == continent_count(s, c),
        total_amount(filtered_by_continent_spec(s, c)) == continent_total(s, c),
        forall|j: int| 0 <= j < filtered_by_continent_spec(s, c).len() ==> (
        #[trigger] filtered_by_continent_spec(s, c)[j])@.continent == c,
    decreases s.len(),
{
    if s.len() > 0 {
        lemma_filtered_matches(s.drop_last(), c);
        let prev = filtered_by_continent_spec(s.drop_last(), c);
        if s.last()@.continent == c {
            assert((prev + seq![s.last()]).drop_last() =~= prev);
            assert(forall|j: int| 0 <= j < prev.len() ==> (prev + seq![s.last()])[j] == prev[j]);
        } else {
            assert(prev + Seq::<Transaction>::empty() =~= prev);
        }
    }
}

fn find_continent(r: &Vec<(Continent, i128)>, c: Continent) -> (found: Option<usize>)
    ensures
        found is Some ==> found->0 < r@.len() && r@[found->0 as int].0 == c,
        found is None ==> forall|j: int| 0 <= j < r@.len() ==> (#[trigger] r@[j]).0 != c,
{
    let mut j: usize = 0;
    while j < r.len()
        invariant
            j <= r@.len(),
            forall|k: int| 0 <= k < j ==> (#[trigger] r@[k]).0 != c,
        decreases r@.len() - j,
    {
        if r[j].0 == c {
            return Some(j);
        }
        j = j + 1;
    }
    None
}

/// Group the records by continent and sum their amounts: one entry per
/// continent that has at least one record, carrying that continent's exact
/// total; continents without records are absent.
#[verifier::loop_isolation(false)]
pub fn sum_by_continent(transactions: &Vec<Transaction>) -> (r: Vec<(Continent, i128)>)
    ensures
        forall|j: int| 0 <= j < r@.len() ==> (#[trigger] r@[j]).1 == continent_total(
            transactions@,
            r@[j].0,
        ),
        forall|j: int| 0 <= j < r@.len() ==> continent_count(transactions@, (#[trigger] r@[j]).0)
            > 0,
        forall|c: Continent| continent_count(transactions@, c) > 0 ==> exists|j: int|
            0 <= j < r@.len() && (#[trigger] r@[j]).0 == c,
        forall|j: int, k: int| 0 <= j < k < r@.len() ==> (#[trigger] r@[j]).0 != (
        #[trigger] r@[k]).0,
{
    let mut r: Vec<(Continent, i128)> = Vec::new();
    let n = transactions.len();
    let mut i: usize = 0;
    proof {
        assert(transactions@.take(0) =~= Seq::<Transaction>::empty());
    }
    while i < n
        invariant
            i <= n,
            forall|j: int| 0 <= j < r@.len() ==> (#[trigger] r@[j]).1 == continent_total(
                transactions@.take(i as int),
                r@[j].0,
            ),
            forall|j: int| 0 <= j < r@.len() ==> continent_count(
                transactions@.take(i as int),
                (#[trigger] r@[j]).0,
            ) > 0,
            forall|c: Continent| continent_count(transactions@.take(i as int), c) > 0
                ==> exists|j: int| 0 <= j < r@.len() && (#[trigger] r@[j]).0 == c,
            forall|j: int, k: int| 0 <= j < k < r@.len() ==> (#[trigger] r@[j]).0 != (
            #[trigger] r@[k]).0,
        decreases n - i,
    {
        let t = &transactions[i];
        let c0: Continent = *t.get_continent();
        let a: i64 = t.get_amount();
        let ghost pre = r@;
        let ghost taken = transactions@.take(i as int);
        let ghost taken1 = transactions@.take(i as int + 1);
        proof {
            assert(taken.len() == i);
        }
        let found = find_continent(&r, c0);
        match found {
            Some(j) => {
                proof {
                    lemma_continent_snoc(transactions@, i as int, c0);
                    lemma_continent_total_bound(taken, c0);
                    assert(i as int <= 0xFFFF_FFFF_FFFF_FFFF);
                }
                let cur: i128 = r[j].1;
                r.set(j, (c0, cur + a as i128));
                proof {
                    assert forall|k: int| 0 <= k < r@.len() implies (#[trigger] r@[k]).1
                        == continent_total(taken1, r@[k].0) && continent_count(taken1, r@[k].0)
                        > 0 by {
                        lemma_continent_snoc(transactions@, i as int, pre[k].0);
                        if k != j {
                            assert(r@[k] == pre[k]);
                            assert(pre[k].0 != c0);
                        }
                    }
                    assert forall|c: Continent| continent_count(taken1, c) > 0 implies exists|jj: int|
                        0 <= jj < r@.len() && (#[trigger] r@[jj]).0 == c by {
                        lemma_continent_snoc(transactions@, i as int, c);
                        if c == c0 {
                            assert(r@[j as int].0 == c);
                        } else {
                            let w = choose|jj: int| 0 <= jj < pre.len() && (#[trigger] pre[jj]).0
                                == c;
                            assert(r@[w].0 == c);
                        }
                    }
                }
            },
            None => {
                proof {
                    lemma_continent_snoc(transactions@, i as int, c0);
                    lemma_continent_count_nonneg(taken, c0);
                    assert(continent_count(taken, c0) == 0);
                    lemma_count_zero_total_zero(taken, c0);
                }
                r.push((c0, a as i128));
                proof {
                    assert forall|k: int| 0 <= k < r@.len() implies (#[trigger] r@[k]).1
                        == continent_total(taken1, r@[k].0) && continent_count(taken1, r@[k].0)
                        > 0 by {
                        lemma_continent_snoc(transactions@, i as int, r@[k].0);
                        if k < pre.len() {
                            assert(r@[k] == pre[k]);
                        }
                    }
                    assert forall|c: Continent| continent_count(taken1, c) > 0 implies exists|jj: int|
                        0 <= jj < r@.len() && (#[trigger] r@[jj]).0 == c by {
                        lemma_continent_snoc(transactions@, i as int, c);
                        if c == c0 {
                            assert(r@[r@.len() - 1].0 == c);
                        } else {
                            let w = choose|jj: int| 0 <= jj < pre.len() && (#[trigger] pre[jj]).0
                                == c;
                            assert(r@[w].0 == c);
                        }
                    }
                }
            },
        }
        i = i + 1;
    }
    proof {
        assert(transactions@.take(n as int) =~= transactions@);
    }
    r
}

pub open spec fn ref_views(s: Seq<&Transaction>) -> Seq<Transaction> {
    s.map_values(|t: &Transaction| *t)
}

/// The records of one continent, as references, in input order.
#[verifier::loop_isolation(false)]
pub fn filter_by_continent<'a>(transactions: &'a Vec<Transaction>, continent: &Continent) -> (r:
    Vec<&'a Transaction>)
    ensures
        ref_views(r@) == filtered_by_continent_spec(transactions@, *continent),
{
    let mut r: Vec<&'a Transaction> = Vec::new();
    let n = transactions.len();
    let mut i: usize = 0;
    proof {
        assert(transactions@.take(0) =~= Seq::<Transaction>::empty());
        assert(ref_views(r@) =~= Seq::<Transaction>::empty());
    }
    while i < n
        invariant
            i <= n,
            ref_views(r@) == filtered_by_continent_spec(transactions@.take(i as int), *continent),
        decreases n - i,
    {
        let t: &'a Transaction = &transactions[i];
        let ghost pre = r@;
        proof {
            lemma_continent_snoc(transactions@, i as int, *continent);
        }
        if *t.get_continent() == *continent {
            r.push(t);
            proof {
                assert(ref_views(pre.push(t)) =~= ref_views(pre) + seq![*t]);
            }
        } else {
            proof {
                assert(filtered_by_continent_spec(transactions@.take(i as int), *continent)
                    + Seq::<Transaction>::empty() =~= filtered_by_continent_spec(
                    transactions@.take(i as int),
                    *continent,
                ));
            }
        }
        i = i + 1;
    }
    proof {
        assert(transactions@.take(n as int) =~= transactions@);
    }
    r
}

} // verus!
