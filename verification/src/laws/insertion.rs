//! Laws of the insertion stepper.
//!
//! Each pass carries one key leftward by adjacent swaps until it rests, so a
//! pass starting at completed count `c` takes at most `c + 2` steps; summing
//! the passes gives a budget after which the bars are sorted, and a sorted
//! sequence is left unchanged.

use vstd::prelude::*;
use crate::order::{dir_le, sorted_by_dir, lemma_swap_at_multiset};
use crate::stepper::{
    Algorithm, SortStepper, insertion_bars_next, insertion_aux_next, insertion_completed_next,
    insertion_key, insertion_moving,
};

verus! {

broadcast use vstd::seq_lib::group_to_multiset_ensures;

/// The state `(bars, completed, aux)` after `n` insertion steps under
/// direction `d`, as the stepper's `step` contract realizes them.
pub open spec fn insertion_run(d: int, s: Seq<i32>, c: int, a: int, n: nat) -> (Seq<i32>, int, int)
    decreases n,
{
    if n == 0 {
        (s, c, a)
    } else {
        insertion_run(
            d,
            insertion_bars_next(d, s, c, a),
            insertion_completed_next(d, s, c, a),
            insertion_aux_next(d, s, c, a),
            (n - 1) as nat,
        )
    }
}

/// The pass invariant of the insertion stepper: cursors in range, the prefix
/// through the current pass ordered everywhere but at the key's position,
/// and every element the key has already passed strictly out of order with
/// it.
pub open spec fn insertion_inv(d: int, s: Seq<i32>, c: int, a: int) -> bool {
    let len = s.len() as int;
    let k = insertion_key(c, a);
    &&& len >= 2
    &&& 0 <= c <= len - 2
    &&& 0 <= a <= c + 1
    &&& forall|i: int, j: int| #![trigger s[i], s[j]]
        0 <= i < j <= c + 1 && i != k && j != k ==> dir_le(d, s[i] as int, s[j] as int)
    &&& forall|j: int| k < j <= c + 1 ==> !dir_le(d, #[trigger] s[j] as int, s[k] as int)
}

/// A fresh cursor satisfies the insertion invariant on any bars.
pub proof fn lemma_insertion_fresh_inv(d: int, s: Seq<i32>)
    requires
        s.len() >= 2,
    ensures
        insertion_inv(d, s, 0, 0),
{
}

/// Step bound for the passes from `c` on, each taken from its beginning:
/// pass `c` needs at most `c + 1` moves and one resting step.
pub open spec fn ins_pass_steps(len: int, c: int) -> int
    decreases len - c,
{
    if c < 0 || c > len - 2 {
        0
    } else {
        (c + 2) + ins_pass_steps(len, c + 1)
    }
}

/// Insertion steps after which the bars are certainly sorted, from cursor
/// position `(c, a)`.
pub open spec fn ins_steps_left(len: int, c: int, a: int) -> int {
    (c + 2 - a) + ins_pass_steps(len, c + 1)
}

pub proof fn lemma_ins_pass_steps_nonneg(len: int, c: int)
    ensures
        ins_pass_steps(len, c) >= 0,
    decreases len - c,
{
    if !(c < 0 || c > len - 2) {
        lemma_ins_pass_steps_nonneg(len, c + 1);
    }
}

/// When the key comes to rest, the prefix through the current pass is fully
/// ordered.
pub proof fn lemma_insertion_rest_sorted_prefix(d: int, s: Seq<i32>, c: int, a: int)
    requires
        d == 1 || d == -1,
        insertion_inv(d, s, c, a),
        !insertion_moving(d, s, c, a),
    ensures
        forall|i: int, j: int| #![trigger s[i], s[j]]
            0 <= i < j <= c + 1 ==> dir_le(d, s[i] as int, s[j] as int),
{
    let k = insertion_key(c, a);
    assert forall|i: int, j: int| #![trigger s[i], s[j]]
        0 <= i < j <= c + 1 implies dir_le(d, s[i] as int, s[j] as int) by {
        if i == k {
            assert(!dir_le(d, s[j] as int, s[k] as int));
        } else if j == k {
            assert(dir_le(d, s[k - 1] as int, s[k] as int));
            assert(i == k - 1 || dir_le(d, s[i] as int, s[k - 1] as int));
        }
    }
}

/// One insertion step preserves the invariant, the length, and the multiset
/// of bar values.
pub proof fn lemma_insertion_next_inv(d: int, s: Seq<i32>, c: int, a: int)
    requires
        d == 1 || d == -1,
        insertion_inv(d, s, c, a),
    ensures
        insertion_inv(
            d,
            insertion_bars_next(d, s, c, a),
            insertion_completed_next(d, s, c, a),
            insertion_aux_next(d, s, c, a),
        ),
        insertion_bars_next(d, s, c, a).len() == s.len(),
        insertion_bars_next(d, s, c, a).to_multiset() == s.to_multiset(),
{
    let len = s.len() as int;
    let k = insertion_key(c, a);
    let s2 = insertion_bars_next(d, s, c, a);
    let c2 = insertion_completed_next(d, s, c, a);
    let a2 = insertion_aux_next(d, s, c, a);
    if insertion_moving(d, s, c, a) {
        // the key swaps one place left; everything else keeps its order
        lemma_swap_at_multiset(s, k - 1, k);
        assert(forall|i: int| 0 <= i < len && i != k - 1 && i != k ==> s2[i] == s[i]);
        assert(s2[k - 1] == s[k]);
        assert(s2[k] == s[k - 1]);
        let k2 = insertion_key(c2, a2);
        assert(k2 == k - 1);
        assert forall|i: int, j: int| #![trigger s2[i], s2[j]]
            0 <= i < j <= c + 1 && i != k2 && j != k2 implies dir_le(d, s2[i] as int, s2[j] as int) by {
            if j == k {
                assert(dir_le(d, s[i] as int, s[k - 1] as int));
            } else if i == k {
                assert(dir_le(d, s[k - 1] as int, s[j] as int));
            } else {
                assert(dir_le(d, s[i] as int, s[j] as int));
            }
        }
        assert forall|j: int| k2 < j <= c + 1 implies !dir_le(
            d,
            s2[j] as int,
            s2[k2] as int,
        ) by {
            if j == k {
                assert(!dir_le(d, s[k - 1] as int, s[k] as int));
            } else {
                assert(!dir_le(d, s[j] as int, s[k] as int));
            }
        }
    } else {
        // the key rests: the prefix is ordered and the next pass begins
        assert(s2 == s);
        lemma_insertion_rest_sorted_prefix(d, s, c, a);
    }
}

/// Insertion steps never change the length or the multiset of bar values,
/// and keep the invariant.
pub proof fn lemma_insertion_run_inv(d: int, s: Seq<i32>, c: int, a: int, n: nat)
    requires
        d == 1 || d == -1,
        insertion_inv(d, s, c, a),
    ensures
        insertion_inv(
            d,
            insertion_run(d, s, c, a, n).0,
            insertion_run(d, s, c, a, n).1,
            insertion_run(d, s, c, a, n).2,
        ),
        insertion_run(d, s, c, a, n).0.len() == s.len(),
        insertion_run(d, s, c, a, n).0.to_multiset() == s.to_multiset(),
    decreases n,
{
    if n > 0 {
        lemma_insertion_next_inv(d, s, c, a);
        lemma_insertion_run_inv(
            d,
            insertion_bars_next(d, s, c, a),
            insertion_completed_next(d, s, c, a),
            insertion_aux_next(d, s, c, a),
            (n - 1) as nat,
        );
    }
}

/// Once the bars are sorted by the direction, further insertion steps leave
/// them unchanged: a sorted sequence never satisfies the move condition.
pub proof fn lemma_insertion_run_stable(d: int, s: Seq<i32>, c: int, a: int, n: nat)
    requires
        d == 1 || d == -1,
        insertion_inv(d, s, c, a),
        sorted_by_dir(d, s),
    ensures
        insertion_run(d, s, c, a, n).0 == s,
    decreases n,
{
    if n > 0 {
        let k = insertion_key(c, a);
        assert(!insertion_moving(d, s, c, a)) by {
            if k > 0 {
                assert(dir_le(d, s[k - 1] as int, s[k] as int));
            }
        }
        lemma_insertion_next_inv(d, s, c, a);
        lemma_insertion_run_stable(
            d,
            s,
            insertion_completed_next(d, s, c, a),
            insertion_aux_next(d, s, c, a),
            (n - 1) as nat,
        );
    }
}

/// From any invariant state, `ins_steps_left` insertion steps sort the bars
/// by the direction; a fresh stepper needs `ins_steps_left(len, 0, 0)` of
/// them.
pub proof fn lemma_insertion_run_sorts(d: int, s: Seq<i32>, c: int, a: int, n: nat)
    requires
        d == 1 || d == -1,
        insertion_inv(d, s, c, a),
        n >= ins_steps_left(s.len() as int, c, a),
    ensures
        sorted_by_dir(d, insertion_run(d, s, c, a, n).0),
    decreases n,
{
    let len = s.len() as int;
    let s2 = insertion_bars_next(d, s, c, a);
    let c2 = insertion_completed_next(d, s, c, a);
    let a2 = insertion_aux_next(d, s, c, a);
    lemma_insertion_next_inv(d, s, c, a);
    lemma_ins_pass_steps_nonneg(len, c + 1);
    if insertion_moving(d, s, c, a) {
        assert(ins_steps_left(len, c2, a2) == ins_steps_left(len, c, a) - 1);
        lemma_insertion_run_sorts(d, s2, c2, a2, (n - 1) as nat);
    } else {
        lemma_insertion_rest_sorted_prefix(d, s, c, a);
        if c == len - 2 {
            // the ordered prefix is the whole sequence
            assert(sorted_by_dir(d, s));
            lemma_insertion_run_stable(d, s2, c2, a2, (n - 1) as nat);
        } else {
            assert(ins_pass_steps(len, c + 1) == (c + 3) + ins_pass_steps(len, c + 2));
            lemma_ins_pass_steps_nonneg(len, c + 2);
            assert(ins_steps_left(len, c2, a2) <= ins_steps_left(len, c, a) - 1);
            lemma_insertion_run_sorts(d, s2, c2, a2, (n - 1) as nat);
        }
    }
}

/// Sortedness for the stepper itself: from a fresh cursor, an insertion-mode
/// stepper's bars are sorted by its direction once `ins_steps_left` steps
/// have run.
pub proof fn lemma_stepper_insertion_sorts(st: SortStepper, n: nat)
    requires
        st.wf(),
        st.algorithm == Algorithm::Insertion,
        st.completed == 0,
        st.aux == 0,
        n >= ins_steps_left(st.spec_len(), 0, 0),
    ensures
        sorted_by_dir(
            st.direction as int,
            insertion_run(st.direction as int, st.columns@, 0, 0, n).0,
        ),
{
    lemma_insertion_fresh_inv(st.direction as int, st.columns@);
    lemma_insertion_run_sorts(st.direction as int, st.columns@, 0, 0, n);
}

/// One `step` call on an insertion-mode stepper realizes exactly one
/// unfolding of `insertion_run`, with the pointer pinned at zero.
pub proof fn lemma_insertion_step_matches_run(st: SortStepper)
    requires
        st.algorithm == Algorithm::Insertion,
    ensures
        (st.next_bars(), st.next_completed(), st.next_aux()) == insertion_run(
            st.direction as int,
            st.columns@,
            st.completed as int,
            st.aux as int,
            1,
        ),
        st.next_pointer() == 0,
{
    reveal_with_fuel(insertion_run, 2);
}

} // verus!
