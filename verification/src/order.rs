//! The order of strings (by character, as `str` compares) and sorting by it.
use vstd::prelude::*;
use vstd::relations::{sorted_by, total_ordering};
use vstd::seq_lib::{lemma_sorted_unique, to_multiset_build, to_multiset_insert};
use crate::text::{views, slice_chars};

verus! {

/// `a` comes before `b`, or equals it, in the order of strings: the first
/// differing character decides, and a prefix comes first.
pub open spec fn char_seq_le(a: Seq<char>, b: Seq<char>) -> bool
    decreases a.len(),
{
    if a.len() == 0 {
        true
    } else if b.len() == 0 {
        false
    } else if a[0] != b[0] {
        a[0] < b[0]
    } else {
        char_seq_le(a.drop_first(), b.drop_first())
    }
}

pub open spec fn string_le() -> spec_fn(Seq<char>, Seq<char>) -> bool {
    |a: Seq<char>, b: Seq<char>| char_seq_le(a, b)
}

proof fn lemma_le_reflexive(a: Seq<char>)
    ensures
        char_seq_le(a, a),
    decreases a.len(),
{
    if a.len() > 0 {
        lemma_le_reflexive(a.drop_first());
    }
}

proof fn lemma_le_antisymmetric(a: Seq<char>, b: Seq<char>)
    requires
        char_seq_le(a, b),
        char_seq_le(b, a),
    ensures
        a == b,
    decreases a.len(),
{
    if a.len() > 0 && b.len() > 0 {
        if a[0] == b[0] {
            lemma_le_antisymmetric(a.drop_first(), b.drop_first());
            assert(a =~= seq![a[0]] + a.drop_first());
            assert(b =~= seq![b[0]] + b.drop_first());
        } else {
        }
    } else {
        assert(a.len() == 0 && b.len() == 0);
        assert(a =~= b);
    }
}

proof fn lemma_le_transitive(a: Seq<char>, b: Seq<char>, c: Seq<char>)
    requires
        char_seq_le(a, b),
        char_seq_le(b, c),
    ensures
        char_seq_le(a, c),
    decreases a.len(),
{
    if a.len() > 0 && b.len() > 0 && c.len() > 0 {
        if a[0] == b[0] && b[0] == c[0] {
            lemma_le_transitive(a.drop_first(), b.drop_first(), c.drop_first());
        }
    }
}

proof fn lemma_le_total(a: Seq<char>, b: Seq<char>)
    ensures
        char_seq_le(a, b) || char_seq_le(b, a),
    decreases a.len(),
{
    if a.len() > 0 && b.len() > 0 {
        if a[0] == b[0] {
            lemma_le_total(a.drop_first(), b.drop_first());
        } else {
        }
    }
}

/// The order of strings is a total order.
pub proof fn lemma_string_le_total_ordering()
    ensures
        total_ordering(string_le()),
{
    let le = string_le();
    assert forall|x: Seq<char>| #[trigger] le(x, x) by {
        lemma_le_reflexive(x);
    }
    assert forall|x: Seq<char>, y: Seq<char>| #[trigger] le(x, y) && #[trigger] le(y, x) implies x
        == y by {
        lemma_le_antisymmetric(x, y);
    }
    assert forall|x: Seq<char>, y: Seq<char>, z: Seq<char>| #[trigger] le(x, y) && #[trigger] le(
        y,
        z,
    ) implies le(x, z) by {
        lemma_le_transitive(x, y, z);
    }
    assert forall|x: Seq<char>, y: Seq<char>| #[trigger] le(x, y) || #[trigger] le(y, x) by {
        lemma_le_total(x, y);
    }
}

/// Whether `a` comes before `b` or equals it.
pub fn chars_le(a: &[char], b: &[char]) -> (r: bool)
    ensures
        r == char_seq_le(a@, b@),
{
    let mut i: usize = 0;
    assert(a@.skip(0) =~= a@);
    assert(b@.skip(0) =~= b@);
    while i < a.len() && i < b.len() && a[i] == b[i]
        invariant
            i <= a@.len(),
            i <= b@.len(),
            a@.take(i as int) == b@.take(i as int),
            char_seq_le(a@, b@) == char_seq_le(a@.skip(i as int), b@.skip(i as int)),
        decreases a@.len() - i,
    {
        proof {
            let sa = a@.skip(i as int);
            let sb = b@.skip(i as int);
            assert(sa.drop_first() =~= a@.skip(i + 1));
            assert(sb.drop_first() =~= b@.skip(i + 1));
            assert(a@.take(i + 1) =~= a@.take(i as int).push(a@[i as int]));
            assert(b@.take(i + 1) =~= b@.take(i as int).push(b@[i as int]));
        }
        i = i + 1;
    }
    proof {
        let sa = a@.skip(i as int);
        let sb = b@.skip(i as int);
        if i < a@.len() && i < b@.len() {
            assert(sa[0] == a@[i as int]);
            assert(sb[0] == b@[i as int]);
        }
    }
    if i == a.len() {
        true
    } else if i == b.len() {
        false
    } else {
        a[i] < b[i]
    }
}

/// The strings in the order of strings; equal strings keep their order.
pub fn sort_strings(v: Vec<Vec<char>>) -> (r: Vec<Vec<char>>)
    ensures
        views(r@) == views(v@).sort_by(string_le()),
{
    let ghost le = string_le();
    proof {
        lemma_string_le_total_ordering();
    }
    let mut out: Vec<Vec<char>> = Vec::new();
    let mut i: usize = 0;
    assert(views(out@) =~= Seq::<Seq<char>>::empty());
    assert(views(v@).take(0) =~= Seq::<Seq<char>>::empty());
    while i < v.len()
        invariant
            i <= v@.len(),
            le == string_le(),
            total_ordering(le),
            sorted_by(views(out@), le),
            views(out@).to_multiset() == views(v@).take(i as int).to_multiset(),
        decreases v@.len() - i,
    {
        let item = slice_chars(v[i].as_slice(), 0, v[i].len());
        assert(item@ =~= v@[i as int]@);
        let mut pos: usize = 0;
        while pos < out.len() && chars_le(out[pos].as_slice(), item.as_slice())
            invariant
                pos <= out@.len(),
                forall|j: int| 0 <= j < pos ==> #[trigger] le(views(out@)[j], item@),
                le == string_le(),
            decreases out@.len() - pos,
        {
            assert(views(out@)[pos as int] == out@[pos as int]@);
            pos = pos + 1;
        }
        let ghost before = views(out@);
        proof {
            if pos < out@.len() {
                assert(views(out@)[pos as int] == out@[pos as int]@);
                assert(!le(before[pos as int], item@));
                assert(le(item@, before[pos as int]));
            }
        }
        out.insert(pos, item);
        proof {
            let after = views(out@);
            assert(after =~= before.insert(pos as int, item@));
            assert forall|a: int, b: int| 0 <= a < b < after.len() implies #[trigger] le(
                after[a],
                after[b],
            ) by {
                if b < pos {
                } else if b == pos {
                } else if a < pos {
                    assert(le(before[a], item@));
                    if pos < before.len() {
                        assert(le(item@, before[pos as int]));
                        if b - 1 > pos {
                            assert(le(before[pos as int], before[b - 1]));
                        }
                    }
                } else if a == pos {
                    assert(le(item@, before[pos as int]));
                    if b - 1 > pos {
                        assert(le(before[pos as int], before[b - 1]));
                    }
                } else {
                    assert(le(before[a - 1], before[b - 1]));
                }
            }
            to_multiset_insert(before, pos as int, item@);
            assert(views(v@).take(i + 1) =~= views(v@).take(i as int).push(v@[i as int]@));
            to_multiset_build(views(v@).take(i as int), v@[i as int]@);
        }
        i = i + 1;
    }
    proof {
        assert(views(v@).take(i as int) =~= views(v@));
        views(v@).lemma_sort_by_ensures(le);
        lemma_sorted_unique(views(out@), views(v@).sort_by(le), le);
    }
    out
}

} // verus!
