//! Direction-adjusted ordering on bar values.
//!
//! A sort direction is `1` (ascending) or `-1` (descending); flipping the
//! direction flips the polarity of every comparison the algorithms make.

use vstd::prelude::*;

verus! {

/// `a` comes no later than `b` under direction `d`: ascending keeps `a <= b`,
/// descending keeps `b <= a`.
pub open spec fn dir_le(d: int, a: int, b: int) -> bool {
    if d >= 0 {
        a <= b
    } else {
        b <= a
    }
}

/// The whole sequence is ordered by direction `d`.
pub open spec fn sorted_by_dir(d: int, s: Seq<i32>) -> bool {
    forall|i: int, j: int| 0 <= i < j < s.len() ==> dir_le(d, s[i] as int, s[j] as int)
}

/// Exact comparison the step functions perform: the pair `(a, b)` is out of
/// order under direction `d` and must be swapped.
pub fn dir_out_of_order(d: i32, a: i32, b: i32) -> (r: bool)
    requires
        d == 1 || d == -1,
    ensures
        r == !dir_le(d as int, a as int, b as int),
{
    if d == 1 {
        a > b
    } else {
        a < b
    }
}

/// The sequence with the values at `i` and `j` exchanged.
pub open spec fn swap_at(s: Seq<i32>, i: int, j: int) -> Seq<i32> {
    s.update(i, s[j]).update(j, s[i])
}

/// Exchanging two in-bounds positions never changes the multiset of values.
pub proof fn lemma_swap_at_multiset(s: Seq<i32>, i: int, j: int)
    requires
        0 <= i < s.len(),
        0 <= j < s.len(),
    ensures
        swap_at(s, i, j).to_multiset() == s.to_multiset(),
{
    broadcast use vstd::seq_lib::group_to_multiset_ensures;

    let t = swap_at(s, i, j);
    assert forall|x: i32| s.to_multiset().count(x) == t.to_multiset().count(x) by {
        if i == j {
            assert(t =~= s);
        } else {
            lemma_update_multiset(s, i, s[j]);
            lemma_update_multiset(s.update(i, s[j]), j, s[i]);
            assert(s.update(i, s[j])[j] == s[j]);
            assert(s.update(i, s[j]).to_multiset() == s.to_multiset().remove(s[i]).insert(s[j]));
            assert(t.to_multiset() == s.to_multiset().remove(s[i]).insert(s[j]).remove(
                s[j],
            ).insert(s[i]));
        }
    }
    assert(s.to_multiset() =~= t.to_multiset());
}

/// Overwriting position `i` removes the old value from the multiset and
/// inserts the new one.
pub proof fn lemma_update_multiset(s: Seq<i32>, i: int, v: i32)
    requires
        0 <= i < s.len(),
    ensures
        s.update(i, v).to_multiset() == s.to_multiset().remove(s[i]).insert(v),
{
    broadcast use vstd::seq_lib::group_to_multiset_ensures;

    assert(s.update(i, v) =~= s.remove(i).insert(i, v));
    lemma_insert_multiset(s.remove(i), i, v);
    assert(s.remove(i).to_multiset() == s.to_multiset().remove(s[i]));
}

/// Inserting a value at any position inserts it into the multiset.
pub proof fn lemma_insert_multiset(s: Seq<i32>, i: int, v: i32)
    requires
        0 <= i <= s.len(),
    ensures
        s.insert(i, v).to_multiset() == s.to_multiset().insert(v),
{
    broadcast use vstd::seq_lib::group_to_multiset_ensures;

    let t = s.insert(i, v);
    assert(t.remove(i) =~= s);
    assert(t.remove(i).to_multiset() == t.to_multiset().remove(t[i]));
    assert(t[i] == v);
    assert(t.to_multiset().count(v) > 0) by {
        assert(t.contains(v));
    }
    assert(t.to_multiset() =~= s.to_multiset().insert(v)) by {
        assert(t.to_multiset().remove(v).insert(v) =~= t.to_multiset());
    }
}

} // verus!
