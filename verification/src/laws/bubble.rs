//! Laws of the bubble stepper.
//!
//! The step functions' contracts give the exact one-step transition; the
//! lemmas here chain them: iterating the bubble transition long enough sorts
//! the bars by the active direction, a sorted sequence is left unchanged, and
//! the two directions produce reversals of one another.

use vstd::prelude::*;
use vstd::relations::{sorted_by, total_ordering};
use vstd::seq_lib::lemma_sorted_unique;
use crate::order::{dir_le, sorted_by_dir, lemma_swap_at_multiset};
use crate::stepper::{Algorithm, SortStepper, bubble_bars_next, pass_pointer_next, pass_completed_next};

verus! {

broadcast use vstd::seq_lib::group_to_multiset_ensures;

/// The state `(bars, pointer, completed)` after `n` bubble steps under
/// direction `d`, as the stepper's `step` contract realizes them.
pub open spec fn bubble_run(d: int, s: Seq<i32>, p: int, c: int, n: nat) -> (Seq<i32>, int, int)
    decreases n,
{
    if n == 0 {
        (s, p, c)
    } else {
        bubble_run(
            d,
            bubble_bars_next(d, s, p),
            pass_pointer_next(s.len() as int, p, c),
            pass_completed_next(s.len() as int, p, c),
            (n - 1) as nat,
        )
    }
}

/// The pass invariant of the bubble stepper: the cursors are in range, the
/// finalized suffix is ordered and dominates the unsorted prefix, and the
/// element at the pointer carries the extreme of the prefix scanned so far.
pub open spec fn bubble_inv(d: int, s: Seq<i32>, p: int, c: int) -> bool {
    let len = s.len() as int;
    &&& len >= 2
    &&& 0 <= c <= len - 2
    &&& 0 <= p <= len - 2 - c
    &&& forall|i: int, j: int| #![trigger s[i], s[j]]
        0 <= i < j < len && len - c <= j ==> dir_le(d, s[i] as int, s[j] as int)
    &&& forall|i: int| 0 <= i < p ==> dir_le(d, #[trigger] s[i] as int, s[p] as int)
}

/// A fresh cursor satisfies the pass invariant on any bars.
pub proof fn lemma_fresh_inv(d: int, s: Seq<i32>)
    requires
        s.len() >= 2,
    ensures
        bubble_inv(d, s, 0, 0),
{
}

/// Comparisons left in the passes starting at `c`, each taken from its
/// beginning.
pub open spec fn pass_steps(len: int, c: int) -> int
    decreases len - c,
{
    if c < 0 || c > len - 2 {
        0
    } else {
        (len - 1 - c) + pass_steps(len, c + 1)
    }
}

/// Bubble steps after which the bars are certainly sorted, from cursor
/// position `(p, c)`: the rest of the current pass, then the remaining passes.
pub open spec fn steps_left(len: int, p: int, c: int) -> int {
    (len - 1 - c - p) + pass_steps(len, c + 1)
}

pub proof fn lemma_pass_steps_nonneg(len: int, c: int)
    ensures
        pass_steps(len, c) >= 0,
    decreases len - c,
{
    if !(c < 0 || c > len - 2) {
        lemma_pass_steps_nonneg(len, c + 1);
    }
}

/// One bubble step preserves the pass invariant, the length, and the
/// multiset of bar values.
pub proof fn lemma_bubble_next_inv(d: int, s: Seq<i32>, p: int, c: int)
    requires
        d == 1 || d == -1,
        bubble_inv(d, s, p, c),
    ensures
        bubble_inv(
            d,
            bubble_bars_next(d, s, p),
            pass_pointer_next(s.len() as int, p, c),
            pass_completed_next(s.len() as int, p, c),
        ),
        bubble_bars_next(d, s, p).len() == s.len(),
        bubble_bars_next(d, s, p).to_multiset() == s.to_multiset(),
{
    let len = s.len() as int;
    let s2 = bubble_bars_next(d, s, p);
    let p2 = pass_pointer_next(len, p, c);
    let c2 = pass_completed_next(len, p, c);
    if !dir_le(d, s[p] as int, s[p + 1] as int) {
        lemma_swap_at_multiset(s, p, p + 1);
    }
    assert(s2.len() == len);
    assert(forall|i: int| 0 <= i < len && i != p && i != p + 1 ==> s2[i] == s[i]);
    assert(s2[p] == s[p] || s2[p] == s[p + 1]);
    assert(dir_le(d, s2[p] as int, s2[p + 1] as int));
    assert(dir_le(d, s[p] as int, s2[p + 1] as int));
    assert(dir_le(d, s[p + 1] as int, s2[p + 1] as int));
    assert forall|i: int, j: int| #![trigger s2[i], s2[j]]
        0 <= i < j < len && len - c2 <= j implies dir_le(d, s2[i] as int, s2[j] as int) by {
        if len - c <= j {
            // an old suffix position: its value is unchanged and dominates
            // every value, in particular both swapped ones
            assert(s2[j] == s[j]);
            assert(dir_le(d, s[p] as int, s[j] as int));
            assert(dir_le(d, s[p + 1] as int, s[j] as int));
            assert(dir_le(d, s[i] as int, s[j] as int));
        } else {
            // only possible when the pass just ended: j is the newly
            // finalized position p + 1, which now carries the prefix extreme
            assert(p == len - 2 - c && c2 == c + 1 && j == p + 1);
            assert(dir_le(d, s[i] as int, s[p] as int) || i == p);
        }
    }
    if p < len - 2 - c {
        assert forall|i: int| 0 <= i < p2 implies dir_le(d, s2[i] as int, s2[p2] as int) by {
            assert(dir_le(d, s[i] as int, s[p] as int) || i == p);
        }
    }
}

/// Bubble steps never change the length or the multiset of bar values, and
/// keep the pass invariant.
pub proof fn lemma_bubble_run_inv(d: int, s: Seq<i32>, p: int, c: int, n: nat)
    requires
        d == 1 || d == -1,
        bubble_inv(d, s, p, c),
    ensures
        bubble_inv(d, bubble_run(d, s, p, c, n).0, bubble_run(d, s, p, c, n).1, bubble_run(d, s, p, c, n).2),
        bubble_run(d, s, p, c, n).0.len() == s.len(),
        bubble_run(d, s, p, c, n).0.to_multiset() == s.to_multiset(),
    decreases n,
{
    if n > 0 {
        lemma_bubble_next_inv(d, s, p, c);
        lemma_bubble_run_inv(
            d,
            bubble_bars_next(d, s, p),
            pass_pointer_next(s.len() as int, p, c),
            pass_completed_next(s.len() as int, p, c),
            (n - 1) as nat,
        );
    }
}

/// Once the bars are sorted by the direction, further bubble steps leave
/// them unchanged: the stepper is idempotent on a sorted sequence.
pub proof fn lemma_bubble_run_stable(d: int, s: Seq<i32>, p: int, c: int, n: nat)
    requires
        d == 1 || d == -1,
        bubble_inv(d, s, p, c),
        sorted_by_dir(d, s),
    ensures
        bubble_run(d, s, p, c, n).0 == s,
    decreases n,
{
    if n > 0 {
        assert(dir_le(d, s[p] as int, s[p + 1] as int));
        assert(bubble_bars_next(d, s, p) == s);
        lemma_bubble_next_inv(d, s, p, c);
        lemma_bubble_run_stable(
            d,
            s,
            pass_pointer_next(s.len() as int, p, c),
            pass_completed_next(s.len() as int, p, c),
            (n - 1) as nat,
        );
    }
}

/// The step budget falls by exactly one with each step taken before the
/// final one.
pub proof fn lemma_steps_left_decreases(len: int, p: int, c: int)
    requires
        len >= 2,
        0 <= c < len - 2,
        0 <= p <= len - 2 - c,
    ensures
        steps_left(
            len,
            pass_pointer_next(len, p, c),
            pass_completed_next(len, p, c),
        ) == steps_left(len, p, c) - 1,
        steps_left(len, p, c) >= 2,
{
    lemma_pass_steps_nonneg(len, c + 2);
    assert(pass_steps(len, c + 1) == (len - 2 - c) + pass_steps(len, c + 2));
}

/// From any invariant state, `steps_left` bubble steps sort the bars by the
/// direction; a fresh stepper needs `steps_left(len, 0, 0)` of them.
pub proof fn lemma_bubble_run_sorts(d: int, s: Seq<i32>, p: int, c: int, n: nat)
    requires
        d == 1 || d == -1,
        bubble_inv(d, s, p, c),
        n >= steps_left(s.len() as int, p, c),
    ensures
        sorted_by_dir(d, bubble_run(d, s, p, c, n).0),
    decreases n,
{
    let len = s.len() as int;
    let s2 = bubble_bars_next(d, s, p);
    let p2 = pass_pointer_next(len, p, c);
    let c2 = pass_completed_next(len, p, c);
    lemma_bubble_next_inv(d, s, p, c);
    if c == len - 2 {
        // the single remaining comparison finishes the sort
        assert(p == 0);
        assert(pass_steps(len, c + 1) == 0);
        assert(steps_left(len, p, c) == 1);
        assert(forall|i: int| 0 <= i < len && i != 0 && i != 1 ==> s2[i] == s[i]);
        assert(sorted_by_dir(d, s2)) by {
            assert forall|i: int, j: int| 0 <= i < j < len implies dir_le(
                d,
                s2[i] as int,
                s2[j] as int,
            ) by {
                if j >= 2 {
                    assert(s2[j] == s[j]);
                    assert(dir_le(d, s[0] as int, s[j] as int));
                    assert(dir_le(d, s[1] as int, s[j] as int));
                    assert(dir_le(d, s[i] as int, s[j] as int));
                }
            }
        }
        lemma_bubble_run_stable(d, s2, p2, c2, (n - 1) as nat);
    } else {
        lemma_steps_left_decreases(len, p, c);
        lemma_bubble_run_sorts(d, s2, p2, c2, (n - 1) as nat);
    }
}

/// One `step` call on a bubble-mode stepper realizes exactly one unfolding
/// of `bubble_run`: the `step` contract's next-state functions agree with
/// the run of length one.
pub proof fn lemma_bubble_step_matches_run(st: SortStepper)
    requires
        st.algorithm == Algorithm::Bubble,
    ensures
        (st.next_bars(), st.next_pointer(), st.next_completed()) == bubble_run(
            st.direction as int,
            st.columns@,
            st.pointer as int,
            st.completed as int,
            1,
        ),
{
    reveal_with_fuel(bubble_run, 2);
}

/// Sortedness for the stepper itself: from a fresh cursor, a bubble-mode
/// stepper's bars are sorted by its direction once `steps_left` steps have
/// run.
pub proof fn lemma_stepper_bubble_sorts(st: SortStepper, n: nat)
    requires
        st.wf(),
        st.algorithm == Algorithm::Bubble,
        st.pointer == 0,
        st.completed == 0,
        n >= steps_left(st.spec_len(), 0, 0),
    ensures
        sorted_by_dir(
            st.direction as int,
            bubble_run(st.direction as int, st.columns@, 0, 0, n).0,
        ),
{
    lemma_fresh_inv(st.direction as int, st.columns@);
    lemma_bubble_run_sorts(st.direction as int, st.columns@, 0, 0, n);
}

/// Direction symmetry: running bubble to completion descending produces
/// exactly the reverse of running it to completion ascending on the same
/// initial bars.
pub proof fn lemma_direction_symmetry(s: Seq<i32>, n_up: nat, n_down: nat)
    requires
        s.len() >= 2,
        n_up >= steps_left(s.len() as int, 0, 0),
        n_down >= steps_left(s.len() as int, 0, 0),
    ensures
        bubble_run(-1, s, 0, 0, n_down).0 == bubble_run(1, s, 0, 0, n_up).0.reverse(),
{
    let up = bubble_run(1, s, 0, 0, n_up).0;
    let down = bubble_run(-1, s, 0, 0, n_down).0;
    lemma_fresh_inv(1, s);
    lemma_fresh_inv(-1, s);
    lemma_bubble_run_sorts(1, s, 0, 0, n_up);
    lemma_bubble_run_sorts(-1, s, 0, 0, n_down);
    lemma_bubble_run_inv(1, s, 0, 0, n_up);
    lemma_bubble_run_inv(-1, s, 0, 0, n_down);
    let leq = |x: i32, y: i32| x <= y;
    let rdown = down.reverse();
    assert(sorted_by(up, leq)) by {
        assert forall|i: int, j: int| 0 <= i < j < up.len() implies #[trigger] leq(
            up[i],
            up[j],
        ) by {
            assert(dir_le(1, up[i] as int, up[j] as int));
        }
    }
    assert(sorted_by(rdown, leq)) by {
        assert forall|i: int, j: int| 0 <= i < j < rdown.len() implies #[trigger] leq(
            rdown[i],
            rdown[j],
        ) by {
            let len = down.len() as int;
            assert(rdown[i] == down[len - 1 - i]);
            assert(rdown[j] == down[len - 1 - j]);
            assert(dir_le(-1, down[len - 1 - j] as int, down[len - 1 - i] as int));
        }
    }
    assert(total_ordering(leq));
    down.lemma_reverse_to_multiset();
    assert(up.to_multiset() == rdown.to_multiset());
    lemma_sorted_unique(up, rdown, leq);
    assert(up =~= rdown);
    assert(up.reverse() =~= down) by {
        assert(rdown.reverse() =~= down);
    }
}

} // verus!
