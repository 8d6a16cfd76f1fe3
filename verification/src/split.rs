//! Splitting a line into delimiter-separated fields.
//!
//! Splitting never fails and always yields at least one field; empty fields
//! are kept, the delimiter itself is dropped. There is no quoting or
//! escaping: a delimiter inside a field is indistinguishable from a real
//! delimiter.

use vstd::prelude::*;

verus! {

/// The fields of `s` split on `sep`.
pub open spec fn split_on(s: Seq<char>, sep: char) -> Seq<Seq<char>>
    decreases s.len(),
{
    if s.len() == 0 {
        seq![Seq::<char>::empty()]
    } else if s[0] == sep {
        seq![Seq::<char>::empty()] + split_on(s.drop_first(), sep)
    } else {
        let rest = split_on(s.drop_first(), sep);
        seq![seq![s[0]] + rest[0]] + rest.skip(1)
    }
}

/// The views of a vector of owned fields.
pub open spec fn field_views(fields: Seq<String>) -> Seq<Seq<char>> {
    fields.map_values(|f: String| f@)
}

pub proof fn lemma_split_on_len(s: Seq<char>, sep: char)
    ensures
        split_on(s, sep).len() >= 1,
    decreases s.len(),
{
    if s.len() > 0 {
        lemma_split_on_len(s.drop_first(), sep);
    }
}

/// `ss` with `p` glued onto the front of its first field.
spec fn prepend_to_first(p: Seq<char>, ss: Seq<Seq<char>>) -> Seq<Seq<char>> {
    seq![p + ss[0]] + ss.skip(1)
}

proof fn lemma_split_step(s: Seq<char>, sep: char, i: int)
    requires
        0 <= i < s.len(),
    ensures
        s[i] == sep ==> split_on(s.skip(i), sep) == seq![Seq::<char>::empty()] + split_on(
            s.skip(i + 1),
            sep,
        ),
        s[i] != sep ==> split_on(s.skip(i), sep) == seq![
            seq![s[i]] + split_on(s.skip(i + 1), sep)[0],
        ] + split_on(s.skip(i + 1), sep).skip(1),
{
    let t = s.skip(i);
    assert(t.len() == s.len() - i);
    assert(t[0] == s[i]);
    assert(t.drop_first() =~= s.skip(i + 1));
}

/// Split `s` on the delimiter `sep`, returning owned fields whose views are
/// exactly `split_on(s@, sep)`.
pub fn split_char(s: &str, sep: char) -> (r: Vec<String>)
    ensures
        field_views(r@) == split_on(s@, sep),
{
    let n = s.unicode_len();
    let mut fields: Vec<String> = Vec::new();
    let mut start: usize = 0;
    let mut i: usize = 0;
    proof {
        assert(s@.skip(0) =~= s@);
        assert(s@.subrange(0, 0) =~= Seq::<char>::empty());
        lemma_split_on_len(s@, sep);
        assert(prepend_to_first(Seq::<char>::empty(), split_on(s@, sep)) =~= split_on(s@, sep));
        assert(field_views(fields@) =~= Seq::<Seq<char>>::empty());
    }
    while i < n
        invariant
            start <= i <= n,
            n == s@.len(),
            split_on(s@, sep) == field_views(fields@) + prepend_to_first(
                s@.subrange(start as int, i as int),
                split_on(s@.skip(i as int), sep),
            ),
        decreases n - i,
    {
        let ghost cur = s@.subrange(start as int, i as int);
        let c = s.get_char(i);
        proof {
            lemma_split_step(s@, sep, i as int);
            lemma_split_on_len(s@.skip(i as int + 1), sep);
        }
        if c == sep {
            let fld = s.substring_char(start, i).to_owned();
            proof {
                let rest = split_on(s@.skip(i as int + 1), sep);
                assert(prepend_to_first(cur, split_on(s@.skip(i as int), sep)) =~= seq![cur]
                    + rest);
                assert(field_views(fields@.push(fld)) =~= field_views(fields@) + seq![cur]);
                assert(prepend_to_first(s@.subrange(i as int + 1, i as int + 1), rest) =~= rest);
            }
            fields.push(fld);
            start = i + 1;
        } else {
            proof {
                let rest = split_on(s@.skip(i as int + 1), sep);
                assert(cur + (seq![s@[i as int]] + rest[0]) =~= s@.subrange(
                    start as int,
                    i as int + 1,
                ) + rest[0]);
                assert(prepend_to_first(cur, split_on(s@.skip(i as int), sep))
                    =~~= prepend_to_first(s@.subrange(start as int, i as int + 1), rest));
            }
        }
        i = i + 1;
    }
    let last = s.substring_char(start, n).to_owned();
    proof {
        let ghost cur = s@.subrange(start as int, n as int);
        assert(s@.skip(n as int) =~= Seq::<char>::empty());
        assert(prepend_to_first(cur, split_on(s@.skip(n as int), sep)) =~= seq![cur]);
        assert(field_views(fields@.push(last)) =~= field_views(fields@) + seq![cur]);
    }
    fields.push(last);
    fields
}

} // verus!
