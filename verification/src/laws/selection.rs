//! Laws of the selection stepper.
//!
//! Selection shares bubble's pass structure — one comparison per step, one
//! finalized element per pass — so it shares bubble's step budget: from a
//! fresh cursor, `steps_left(len, 0, 0)` steps sort the bars, and a sorted
//! sequence is left unchanged.

use vstd::prelude::*;
use crate::order::{dir_le, sorted_by_dir, lemma_swap_at_multiset};
use crate::stepper::{
    Algorithm, SortStepper, selection_bars_next, selection_aux_next, selection_best_next,
    pass_pointer_next, pass_completed_next,
};
use crate::laws::bubble::{steps_left, pass_steps, lemma_steps_left_decreases};

verus! {

broadcast use vstd::seq_lib::group_to_multiset_ensures;

/// The state `(bars, pointer, completed, best)` after `n` selection steps
/// under direction `d`, as the stepper's `step` contract realizes them.
pub open spec fn selection_run(d: int, s: Seq<i32>, p: int, c: int, b: int, n: nat) -> (
    Seq<i32>,
    int,
    int,
    int,
)
    decreases n,
{
    if n == 0 {
        (s, p, c, b)
    } else {
        selection_run(
            d,
            selection_bars_next(d, s, p, c, b),
            pass_pointer_next(s.len() as int, p, c),
            pass_completed_next(s.len() as int, p, c),
            selection_aux_next(d, s, p, c, b),
            (n - 1) as nat,
        )
    }
}

/// The pass invariant of the selection stepper: cursors in range, the
/// finalized suffix ordered and dominating the rest, and the best candidate
/// extreme among the positions scanned so far.
pub open spec fn selection_inv(d: int, s: Seq<i32>, p: int, c: int, b: int) -> bool {
    let len = s.len() as int;
    &&& len >= 2
    &&& 0 <= c <= len - 2
    &&& 0 <= p <= len - 2 - c
    &&& 0 <= b <= p
    &&& forall|i: int, j: int| #![trigger s[i], s[j]]
        0 <= i < j < len && len - c <= j ==> dir_le(d, s[i] as int, s[j] as int)
    &&& forall|i: int| 0 <= i <= p ==> dir_le(d, #[trigger] s[i] as int, s[b] as int)
}

/// A fresh cursor satisfies the selection invariant on any bars.
pub proof fn lemma_selection_fresh_inv(d: int, s: Seq<i32>)
    requires
        s.len() >= 2,
    ensures
        selection_inv(d, s, 0, 0, 0),
{
}

/// One selection step preserves the invariant, the length, and the multiset
/// of bar values.
pub proof fn lemma_selection_next_inv(d: int, s: Seq<i32>, p: int, c: int, b: int)
    requires
        d == 1 || d == -1,
        selection_inv(d, s, p, c, b),
    ensures
        selection_inv(
            d,
            selection_bars_next(d, s, p, c, b),
            pass_pointer_next(s.len() as int, p, c),
            pass_completed_next(s.len() as int, p, c),
            selection_aux_next(d, s, p, c, b),
        ),
        selection_bars_next(d, s, p, c, b).len() == s.len(),
        selection_bars_next(d, s, p, c, b).to_multiset() == s.to_multiset(),
{
    let len = s.len() as int;
    let nb = selection_best_next(d, s, p, b);
    let s2 = selection_bars_next(d, s, p, c, b);
    let c2 = pass_completed_next(len, p, c);
    // the refreshed best covers the whole scanned range [0, p + 1]
    assert(0 <= nb <= p + 1);
    assert forall|i: int| 0 <= i <= p + 1 implies dir_le(d, s[i] as int, s[nb] as int) by {
        assert(dir_le(d, s[i] as int, s[b] as int) || i == p + 1);
    }
    if p < len - 2 - c {
        assert(s2 == s);
    } else {
        // pass end: the best candidate moves into the last unsorted slot
        let dest = len - 1 - c;
        assert(p + 1 == dest);
        lemma_swap_at_multiset(s, nb, dest);
        assert(forall|i: int| 0 <= i < len && i != nb && i != dest ==> s2[i] == s[i]);
        assert(s2[dest] == s[nb]);
        assert(s2[nb] == s[dest]);
        assert forall|i: int, j: int| #![trigger s2[i], s2[j]]
            0 <= i < j < len && len - c2 <= j implies dir_le(d, s2[i] as int, s2[j] as int) by {
            if j >= len - c {
                // an old suffix position: unchanged, dominates everything
                assert(s2[j] == s[j]);
                assert(dir_le(d, s[nb] as int, s[j] as int));
                assert(dir_le(d, s[dest] as int, s[j] as int));
                assert(dir_le(d, s[i] as int, s[j] as int));
            } else {
                // the newly finalized slot: it now carries the scan extreme
                assert(c < len - 2 && c2 == c + 1 && j == dest);
                assert(dir_le(d, s[dest] as int, s[nb] as int));
                assert(dir_le(d, s[i] as int, s[nb] as int) || i == nb);
            }
        }
    }
}

/// Selection steps never change the length or the multiset of bar values,
/// and keep the invariant.
pub proof fn lemma_selection_run_inv(d: int, s: Seq<i32>, p: int, c: int, b: int, n: nat)
    requires
        d == 1 || d == -1,
        selection_inv(d, s, p, c, b),
    ensures
        selection_inv(
            d,
            selection_run(d, s, p, c, b, n).0,
            selection_run(d, s, p, c, b, n).1,
            selection_run(d, s, p, c, b, n).2,
            selection_run(d, s, p, c, b, n).3,
        ),
        selection_run(d, s, p, c, b, n).0.len() == s.len(),
        selection_run(d, s, p, c, b, n).0.to_multiset() == s.to_multiset(),
    decreases n,
{
    if n > 0 {
        lemma_selection_next_inv(d, s, p, c, b);
        lemma_selection_run_inv(
            d,
            selection_bars_next(d, s, p, c, b),
            pass_pointer_next(s.len() as int, p, c),
            pass_completed_next(s.len() as int, p, c),
            selection_aux_next(d, s, p, c, b),
            (n - 1) as nat,
        );
    }
}

/// Once the bars are sorted by the direction, further selection steps leave
/// them unchanged: the end-of-pass swap always exchanges equal values.
pub proof fn lemma_selection_run_stable(d: int, s: Seq<i32>, p: int, c: int, b: int, n: nat)
    requires
        d == 1 || d == -1,
        selection_inv(d, s, p, c, b),
        sorted_by_dir(d, s),
    ensures
        selection_run(d, s, p, c, b, n).0 == s,
    decreases n,
{
    if n > 0 {
        let len = s.len() as int;
        let nb = selection_best_next(d, s, p, b);
        let s2 = selection_bars_next(d, s, p, c, b);
        lemma_selection_next_inv(d, s, p, c, b);
        if p == len - 2 - c {
            let dest = len - 1 - c;
            assert(dir_le(d, s[dest] as int, s[nb] as int));
            assert(dir_le(d, s[nb] as int, s[dest] as int));
            assert(s2 =~= s);
        }
        assert(s2 == s);
        lemma_selection_run_stable(
            d,
            s,
            pass_pointer_next(len, p, c),
            pass_completed_next(len, p, c),
            selection_aux_next(d, s, p, c, b),
            (n - 1) as nat,
        );
    }
}

/// From any invariant state, `steps_left` selection steps sort the bars by
/// the direction; a fresh stepper needs `steps_left(len, 0, 0)` of them.
pub proof fn lemma_selection_run_sorts(d: int, s: Seq<i32>, p: int, c: int, b: int, n: nat)
    requires
        d == 1 || d == -1,
        selection_inv(d, s, p, c, b),
        n >= steps_left(s.len() as int, p, c),
    ensures
        sorted_by_dir(d, selection_run(d, s, p, c, b, n).0),
    decreases n,
{
    let len = s.len() as int;
    let nb = selection_best_next(d, s, p, b);
    let s2 = selection_bars_next(d, s, p, c, b);
    let p2 = pass_pointer_next(len, p, c);
    let c2 = pass_completed_next(len, p, c);
    let b2 = selection_aux_next(d, s, p, c, b);
    lemma_selection_next_inv(d, s, p, c, b);
    if c == len - 2 {
        // the single remaining placement finishes the sort
        assert(p == 0);
        assert(pass_steps(len, c + 1) == 0);
        assert(steps_left(len, p, c) == 1);
        assert forall|i: int| 0 <= i <= 1 implies dir_le(d, s[i] as int, s[nb] as int) by {
            assert(dir_le(d, s[i] as int, s[b] as int) || i == 1);
        }
        assert(forall|i: int| 0 <= i < len && i != nb && i != 1 ==> s2[i] == s[i]);
        assert(sorted_by_dir(d, s2)) by {
            assert forall|i: int, j: int| 0 <= i < j < len implies dir_le(
                d,
                s2[i] as int,
                s2[j] as int,
            ) by {
                if j >= 2 {
                    assert(s2[j] == s[j]);
                    assert(dir_le(d, s[0] as int, s[j] as int));
                    assert(dir_le(d, s[1] as int, s[j] as int));
                    assert(dir_le(d, s[i] as int, s[j] as int));
                } else {
                    assert(s2[1] == s[nb]);
                    assert(s2[0] == s[0] || s2[0] == s[1]);
                }
            }
        }
        lemma_selection_run_stable(d, s2, p2, c2, b2, (n - 1) as nat);
    } else {
        lemma_steps_left_decreases(len, p, c);
        lemma_selection_run_sorts(d, s2, p2, c2, b2, (n - 1) as nat);
    }
}

/// Sortedness for the stepper itself: from a fresh cursor, a selection-mode
/// stepper's bars are sorted by its direction once `steps_left` steps have
/// run.
pub proof fn lemma_stepper_selection_sorts(st: SortStepper, n: nat)
    requires
        st.wf(),
        st.algorithm == Algorithm::Selection,
        st.pointer == 0,
        st.completed == 0,
        st.aux == 0,
        n >= steps_left(st.spec_len(), 0, 0),
    ensures
        sorted_by_dir(
            st.direction as int,
            selection_run(st.direction as int, st.columns@, 0, 0, 0, n).0,
        ),
{
    lemma_selection_fresh_inv(st.direction as int, st.columns@);
    lemma_selection_run_sorts(st.direction as int, st.columns@, 0, 0, 0, n);
}

/// One `step` call on a selection-mode stepper realizes exactly one
/// unfolding of `selection_run`.
pub proof fn lemma_selection_step_matches_run(st: SortStepper)
    requires
        st.algorithm == Algorithm::Selection,
    ensures
        (st.next_bars(), st.next_pointer(), st.next_completed(), st.next_aux())
            == selection_run(
            st.direction as int,
            st.columns@,
            st.pointer as int,
            st.completed as int,
            st.aux as int,
            1,
        ),
{
    reveal_with_fuel(selection_run, 2);
}

} // verus!
