//! The sorting state machine.
//!
//! [`SortStepper`] owns the bar sequence and all progress state, and advances
//! the selected algorithm by one bounded unit of work per [`SortStepper::step`]
//! call. Every structural change — randomize, resize, algorithm or direction
//! selection — resets the progress cursors to zero, the one consistent reset
//! rule the stepper follows.

use vstd::prelude::*;
use vstd::multiset::Multiset;
use vstd::pervasive::VecAdditionalExecFns;
use crate::order::{dir_le, dir_out_of_order, swap_at, lemma_swap_at_multiset};
use crate::random::rand_below;

verus! {

broadcast use vstd::seq_lib::group_to_multiset_ensures;

/// Which sorting algorithm the stepper advances.
#[derive(Clone, Copy, PartialEq, Eq, Structural, Debug)]
pub enum Algorithm {
    Bubble,
    Selection,
    Insertion,
}

impl Algorithm {
    /// Position of the algorithm in the cyclic selector order.
    pub open spec fn index(self) -> int {
        match self {
            Algorithm::Bubble => 0,
            Algorithm::Selection => 1,
            Algorithm::Insertion => 2,
        }
    }

    /// The algorithm at a selector position, taken modulo the set size.
    pub open spec fn from_index(i: int) -> Algorithm {
        if i % 3 == 0 {
            Algorithm::Bubble
        } else if i % 3 == 1 {
            Algorithm::Selection
        } else {
            Algorithm::Insertion
        }
    }

    /// The selector moved by `delta` places, wrapping around the set.
    pub open spec fn cycled(self, delta: int) -> Algorithm {
        Algorithm::from_index(self.index() + delta)
    }
}

/// Bars after the bubble comparison at `p`: the adjacent pair is swapped
/// exactly when it is out of order under direction `d`.
pub open spec fn bubble_bars_next(d: int, s: Seq<i32>, p: int) -> Seq<i32> {
    if !dir_le(d, s[p] as int, s[p + 1] as int) {
        swap_at(s, p, p + 1)
    } else {
        s
    }
}

/// The pass cursor after one step: advance within the pass, or wrap to a new
/// pass once the shrinking scan window is exhausted.
pub open spec fn pass_pointer_next(len: int, p: int, c: int) -> int {
    if p < len - 2 - c {
        p + 1
    } else {
        0
    }
}

/// The completed count after one step: grows by one when a pass ends, capped
/// so that a two-element comparison window always remains.
pub open spec fn pass_completed_next(len: int, p: int, c: int) -> int {
    if p < len - 2 - c {
        c
    } else if c < len - 2 {
        c + 1
    } else {
        c
    }
}

/// Selection scan: the best-candidate index after comparing position `p + 1`
/// against the best seen so far; ties keep the earlier candidate.
pub open spec fn selection_best_next(d: int, s: Seq<i32>, p: int, b: int) -> int {
    if !dir_le(d, s[p + 1] as int, s[b] as int) {
        p + 1
    } else {
        b
    }
}

/// Selection bars: unchanged while scanning; at the end of a pass the best
/// candidate is swapped into the last unsorted slot.
pub open spec fn selection_bars_next(d: int, s: Seq<i32>, p: int, c: int, b: int) -> Seq<i32> {
    let len = s.len() as int;
    if p < len - 2 - c {
        s
    } else {
        swap_at(s, selection_best_next(d, s, p, b), len - 1 - c)
    }
}

/// Selection auxiliary cursor: the running best candidate, cleared when the
/// pass ends.
pub open spec fn selection_aux_next(d: int, s: Seq<i32>, p: int, c: int, b: int) -> int {
    if p < s.len() - 2 - c {
        selection_best_next(d, s, p, b)
    } else {
        0
    }
}

/// Insertion: position of the key of the current pass after `a` moves left.
pub open spec fn insertion_key(c: int, a: int) -> int {
    c + 1 - a
}

/// The key still has to move: it is not at the front and its left neighbour
/// is out of order with it.
pub open spec fn insertion_moving(d: int, s: Seq<i32>, c: int, a: int) -> bool {
    let k = insertion_key(c, a);
    k > 0 && !dir_le(d, s[k - 1] as int, s[k] as int)
}

/// Insertion bars: the key swaps one place left while it moves.
pub open spec fn insertion_bars_next(d: int, s: Seq<i32>, c: int, a: int) -> Seq<i32> {
    let k = insertion_key(c, a);
    if insertion_moving(d, s, c, a) {
        swap_at(s, k - 1, k)
    } else {
        s
    }
}

/// Insertion auxiliary cursor: one more move, or cleared when the key rests.
pub open spec fn insertion_aux_next(d: int, s: Seq<i32>, c: int, a: int) -> int {
    if insertion_moving(d, s, c, a) {
        a + 1
    } else {
        0
    }
}

/// Insertion completed count: grows when a key comes to rest, with the same
/// cap as the other algorithms.
pub open spec fn insertion_completed_next(d: int, s: Seq<i32>, c: int, a: int) -> int {
    let len = s.len() as int;
    if insertion_moving(d, s, c, a) {
        c
    } else if c < len - 2 {
        c + 1
    } else {
        c
    }
}

/// The identity bar sequence `1, 2, ..., n` the stepper starts from.
pub open spec fn ident_bars(n: nat) -> Seq<i32> {
    Seq::new(n, |i: int| (i + 1) as i32)
}

/// First index among `[0, n)` holding the largest value there.
pub open spec fn max_index_upto(s: Seq<i32>, n: int) -> int
    decreases n,
{
    if n <= 1 {
        0
    } else {
        let m = max_index_upto(s, n - 1);
        if s[m] < s[n - 1] {
            n - 1
        } else {
            m
        }
    }
}

/// First index of the largest bar value.
pub open spec fn max_index(s: Seq<i32>) -> int {
    max_index_upto(s, s.len() as int)
}

/// The maximum scan lands on the first index of the largest value.
pub proof fn lemma_max_index_upto(s: Seq<i32>, n: int)
    requires
        1 <= n <= s.len(),
    ensures
        0 <= max_index_upto(s, n) < n,
        forall|i: int| 0 <= i < n ==> #[trigger] s[i] <= s[max_index_upto(s, n)],
        forall|i: int| 0 <= i < max_index_upto(s, n) ==> #[trigger] s[i] < s[max_index_upto(s, n)],
    decreases n,
{
    if n > 1 {
        lemma_max_index_upto(s, n - 1);
    }
}

/// The stepper: bar values plus all progress and control state.
pub struct SortStepper {
    /// Bar heights, one per visualized column.
    pub columns: Vec<i32>,
    /// The selected algorithm.
    pub algorithm: Algorithm,
    /// Sort direction: `1` ascending, `-1` descending.
    pub direction: i32,
    /// Index of the next comparison site within the current pass.
    pub pointer: usize,
    /// How many elements are already guaranteed to be in final position: at
    /// the tail for bubble and selection, at the head for insertion.
    pub completed: usize,
    /// Per-algorithm auxiliary cursor: for selection, the index of the best
    /// candidate seen in the current scan; for insertion, how many places the
    /// key of the current pass has moved; unused (zero) for bubble.
    pub aux: usize,
    /// While set, `tick` does nothing unless a single tick is pending.
    pub paused: bool,
    /// A pending single-tick request.
    pub do_tick: bool,
}

impl SortStepper {
    /// Number of columns; the bar sequence always has exactly this length.
    pub open spec fn spec_len(self) -> int {
        self.columns@.len() as int
    }

    /// Well-formedness: at least two bars, a unit direction, the pointer
    /// invariant `pointer <= length - 2 - completed`, and the per-algorithm
    /// bound on the auxiliary cursor.
    pub open spec fn wf(self) -> bool {
        &&& 2 <= self.spec_len() <= i32::MAX
        &&& self.direction == 1 || self.direction == -1
        &&& self.pointer + self.completed + 2 <= self.spec_len()
        &&& match self.algorithm {
            Algorithm::Bubble => self.aux == 0,
            Algorithm::Selection => self.aux <= self.pointer,
            Algorithm::Insertion => self.pointer == 0 && self.aux <= self.completed + 1,
        }
    }

    /// The bar sequence one `step` call produces.
    pub open spec fn next_bars(self) -> Seq<i32> {
        match self.algorithm {
            Algorithm::Bubble => bubble_bars_next(
                self.direction as int,
                self.columns@,
                self.pointer as int,
            ),
            Algorithm::Selection => selection_bars_next(
                self.direction as int,
                self.columns@,
                self.pointer as int,
                self.completed as int,
                self.aux as int,
            ),
            Algorithm::Insertion => insertion_bars_next(
                self.direction as int,
                self.columns@,
                self.completed as int,
                self.aux as int,
            ),
        }
    }

    /// The pointer one `step` call produces.
    pub open spec fn next_pointer(self) -> int {
        match self.algorithm {
            Algorithm::Bubble => pass_pointer_next(
                self.spec_len(),
                self.pointer as int,
                self.completed as int,
            ),
            Algorithm::Selection => pass_pointer_next(
                self.spec_len(),
                self.pointer as int,
                self.completed as int,
            ),
            Algorithm::Insertion => 0,
        }
    }

    /// The completed count one `step` call produces.
    pub open spec fn next_completed(self) -> int {
        match self.algorithm {
            Algorithm::Bubble => pass_completed_next(
                self.spec_len(),
                self.pointer as int,
                self.completed as int,
            ),
            Algorithm::Selection => pass_completed_next(
                self.spec_len(),
                self.pointer as int,
                self.completed as int,
            ),
            Algorithm::Insertion => insertion_completed_next(
                self.direction as int,
                self.columns@,
                self.completed as int,
                self.aux as int,
            ),
        }
    }

    /// The auxiliary cursor one `step` call produces.
    pub open spec fn next_aux(self) -> int {
        match self.algorithm {
            Algorithm::Bubble => self.aux as int,
            Algorithm::Selection => selection_aux_next(
                self.direction as int,
                self.columns@,
                self.pointer as int,
                self.completed as int,
                self.aux as int,
            ),
            Algorithm::Insertion => insertion_aux_next(
                self.direction as int,
                self.columns@,
                self.completed as int,
                self.aux as int,
            ),
        }
    }

    /// A fresh stepper over the identity sequence `1, 2, ..., n`, running the
    /// bubble algorithm ascending.
    pub fn new(n: usize) -> (st: SortStepper)
        requires
            2 <= n <= i32::MAX,
        ensures
            st.wf(),
            st.columns@ == ident_bars(n as nat),
            st.columns@.len() == n,
            st.algorithm == Algorithm::Bubble,
            st.direction == 1,
            st.pointer == 0,
            st.completed == 0,
            st.aux == 0,
            st.paused == false,
            st.do_tick == false,
    {
        let mut columns: Vec<i32> = Vec::new();
        let mut i: usize = 0;
        while i < n
            invariant
                i <= n,
                n <= i32::MAX,
                columns@.len() == i,
                forall|j: int| 0 <= j < i ==> columns@[j] == (j + 1) as i32,
            decreases n - i,
        {
            columns.push((i + 1) as i32);
            i = i + 1;
        }
        proof {
            assert(columns@ =~= ident_bars(n as nat));
        }
        SortStepper {
            columns,
            algorithm: Algorithm::Bubble,
            direction: 1,
            pointer: 0,
            completed: 0,
            aux: 0,
            paused: false,
            do_tick: false,
        }
    }

    /// Number of columns.
    pub fn num_cols(&self) -> (n: usize)
        ensures
            n == self.columns@.len(),
    {
        self.columns.len()
    }

    /// The bar value at a column.
    pub fn bar(&self, i: usize) -> (v: i32)
        requires
            i < self.columns@.len(),
        ensures
            v == self.columns@[i as int],
    {
        self.columns[i]
    }

    /// Flip the run/pause flag.
    pub fn toggle_pause(&mut self)
        ensures
            final(self).paused == !old(self).paused,
            final(self).columns == old(self).columns,
            final(self).algorithm == old(self).algorithm,
            final(self).direction == old(self).direction,
            final(self).pointer == old(self).pointer,
            final(self).completed == old(self).completed,
            final(self).aux == old(self).aux,
            final(self).do_tick == old(self).do_tick,
    {
        self.paused = !self.paused;
    }

    /// Request one single step on the next tick, even while paused.
    pub fn request_tick(&mut self)
        ensures
            final(self).do_tick == true,
            final(self).columns == old(self).columns,
            final(self).algorithm == old(self).algorithm,
            final(self).direction == old(self).direction,
            final(self).pointer == old(self).pointer,
            final(self).completed == old(self).completed,
            final(self).aux == old(self).aux,
            final(self).paused == old(self).paused,
    {
        self.do_tick = true;
    }

    /// Set the sort direction and reset the progress cursors.
    pub fn set_direction(&mut self, direction: i32)
        requires
            old(self).wf(),
            direction == 1 || direction == -1,
        ensures
            final(self).wf(),
            final(self).direction == direction,
            final(self).pointer == 0,
            final(self).completed == 0,
            final(self).aux == 0,
            final(self).columns == old(self).columns,
            final(self).algorithm == old(self).algorithm,
            final(self).paused == old(self).paused,
            final(self).do_tick == old(self).do_tick,
    {
        self.direction = direction;
        self.pointer = 0;
        self.completed = 0;
        self.aux = 0;
    }

    /// Cycle the algorithm selector one place forward or backward, wrapping
    /// around the three algorithms, and reset the progress cursors.
    pub fn set_algorithm(&mut self, delta: i32)
        requires
            old(self).wf(),
            delta == 1 || delta == -1,
        ensures
            final(self).wf(),
            final(self).algorithm == old(self).algorithm.cycled(delta as int),
            final(self).pointer == 0,
            final(self).completed == 0,
            final(self).aux == 0,
            final(self).columns == old(self).columns,
            final(self).direction == old(self).direction,
            final(self).paused == old(self).paused,
            final(self).do_tick == old(self).do_tick,
    {
        self.pointer = 0;
        self.completed = 0;
        self.aux = 0;
        self.algorithm = if delta == 1 {
            match self.algorithm {
                Algorithm::Bubble => Algorithm::Selection,
                Algorithm::Selection => Algorithm::Insertion,
                Algorithm::Insertion => Algorithm::Bubble,
            }
        } else {
            match self.algorithm {
                Algorithm::Bubble => Algorithm::Insertion,
                Algorithm::Selection => Algorithm::Bubble,
                Algorithm::Insertion => Algorithm::Selection,
            }
        };
    }

    /// Index of the first bar holding the largest value.
    pub fn find_largest(&self) -> (m: usize)
        requires
            self.columns@.len() > 0,
        ensures
            m as int == max_index(self.columns@),
            m < self.columns@.len(),
            forall|i: int| 0 <= i < self.columns@.len() ==> self.columns@[i] <= self.columns@[
                m as int
            ],
    {
        let ghost s = self.columns@;
        let mut max: usize = 0;
        let mut i: usize = 1;
        while i < self.columns.len()
            invariant
                self.columns@ == s,
                1 <= i <= s.len(),
                max < i,
                max as int == max_index_upto(s, i as int),
            decreases s.len() - i,
        {
            if self.columns[max] < self.columns[i] {
                max = i;
            }
            i = i + 1;
        }
        proof {
            lemma_max_index_upto(s, s.len() as int);
        }
        max
    }

    /// Grow or shrink the data set by one column. Growing appends a bar
    /// valued one more than the old length; shrinking removes the bar holding
    /// the first largest value. Both reset the progress cursors.
    pub fn resize(&mut self, delta: i32)
        requires
            old(self).wf(),
            delta == 1 || delta == -1,
            delta == 1 ==> old(self).spec_len() < i32::MAX,
            delta == -1 ==> old(self).spec_len() > 2,
        ensures
            final(self).wf(),
            delta == 1 ==> final(self).columns@ == old(self).columns@.push(
                (old(self).spec_len() + 1) as i32,
            ),
            delta == -1 ==> final(self).columns@ == old(self).columns@.remove(
                max_index(old(self).columns@),
            ),
            delta == -1 ==> 0 <= max_index(old(self).columns@) < old(self).spec_len(),
            delta == -1 ==> final(self).columns@.len() == old(self).columns@.len() - 1,
            delta == -1 ==> forall|i: int|
                0 <= i < old(self).spec_len()
                    ==> #[trigger] old(self).columns@[i]
                    <= old(self).columns@[max_index(old(self).columns@)],
            final(self).pointer == 0,
            final(self).completed == 0,
            final(self).aux == 0,
            final(self).algorithm == old(self).algorithm,
            final(self).direction == old(self).direction,
            final(self).paused == old(self).paused,
            final(self).do_tick == old(self).do_tick,
    {
        self.pointer = 0;
        self.completed = 0;
        self.aux = 0;
        if delta == 1 {
            let n = self.columns.len();
            self.columns.push((n + 1) as i32);
        } else {
            let m = self.find_largest();
            self.columns.remove(m);
        }
    }

    /// Replace the bars by a random permutation of themselves and reset the
    /// progress cursors: repeatedly draw a uniformly random remaining index,
    /// move that element to an output sequence, and take the output over.
    pub fn randomize(&mut self)
        requires
            old(self).wf(),
        ensures
            final(self).wf(),
            final(self).columns@.to_multiset() == old(self).columns@.to_multiset(),
            final(self).columns@.len() == old(self).columns@.len(),
            final(self).pointer == 0,
            final(self).completed == 0,
            final(self).aux == 0,
            final(self).algorithm == old(self).algorithm,
            final(self).direction == old(self).direction,
            final(self).paused == old(self).paused,
            final(self).do_tick == old(self).do_tick,
    {
        self.pointer = 0;
        self.completed = 0;
        self.aux = 0;
        let mut temp: Vec<i32> = Vec::new();
        while self.columns.len() > 0
            invariant
                temp@.len() + self.columns@.len() == old(self).columns@.len(),
                temp@.to_multiset().add(self.columns@.to_multiset())
                    == old(self).columns@.to_multiset(),
                self.algorithm == old(self).algorithm,
                self.direction == old(self).direction,
                self.paused == old(self).paused,
                self.do_tick == old(self).do_tick,
                self.pointer == 0,
                self.completed == 0,
                self.aux == 0,
            decreases self.columns@.len(),
        {
            let ghost cols0 = self.columns@;
            let ghost temp0 = temp@;
            let idx = rand_below(self.columns.len());
            let x = self.columns.remove(idx);
            temp.push(x);
            proof {
                assert(cols0.to_multiset().count(x) > 0) by {
                    assert(cols0.contains(x));
                }
                assert(temp@.to_multiset().add(self.columns@.to_multiset()) =~= temp0.to_multiset().add(
                    cols0.to_multiset(),
                ));
            }
        }
        proof {
            assert(self.columns@.to_multiset() =~= Multiset::<i32>::empty());
            assert(temp@.to_multiset().add(Multiset::<i32>::empty()) =~= temp@.to_multiset());
        }
        self.columns = temp;
    }

    /// One bubble-sort step: compare the adjacent pair at the pointer, swap
    /// it if out of order under the direction, and advance the pass cursor.
    pub fn bubble_step(&mut self)
        requires
            old(self).wf(),
            old(self).algorithm == Algorithm::Bubble,
        ensures
            final(self).wf(),
            final(self).columns@ == bubble_bars_next(
                old(self).direction as int,
                old(self).columns@,
                old(self).pointer as int,
            ),
            final(self).pointer as int == pass_pointer_next(
                old(self).spec_len(),
                old(self).pointer as int,
                old(self).completed as int,
            ),
            final(self).completed as int == pass_completed_next(
                old(self).spec_len(),
                old(self).pointer as int,
                old(self).completed as int,
            ),
            final(self).columns@.to_multiset() == old(self).columns@.to_multiset(),
            final(self).columns@.len() == old(self).columns@.len(),
            final(self).algorithm == old(self).algorithm,
            final(self).direction == old(self).direction,
            final(self).aux == old(self).aux,
            final(self).paused == old(self).paused,
            final(self).do_tick == old(self).do_tick,
    {
        let i = self.pointer;
        let j = i + 1;
        let a = self.columns[i];
        let b = self.columns[j];
        if dir_out_of_order(self.direction, a, b) {
            self.columns.set(i, b);
            self.columns.set(j, a);
            proof {
                assert(self.columns@ =~= swap_at(old(self).columns@, i as int, j as int));
                lemma_swap_at_multiset(old(self).columns@, i as int, j as int);
            }
        }
        if self.pointer < self.columns.len() - 2 - self.completed {
            self.pointer = self.pointer + 1;
        } else {
            self.pointer = 0;
            if self.completed < self.columns.len() - 2 {
                self.completed = self.completed + 1;
            }
        }
    }

    /// One selection-sort step: compare the next scanned element against the
    /// best candidate so far; at the end of a pass, swap the best candidate
    /// into the last unsorted slot.
    pub fn selection_step(&mut self)
        requires
            old(self).wf(),
            old(self).algorithm == Algorithm::Selection,
        ensures
            final(self).wf(),
            final(self).columns@ == selection_bars_next(
                old(self).direction as int,
                old(self).columns@,
                old(self).pointer as int,
                old(self).completed as int,
                old(self).aux as int,
            ),
            final(self).pointer as int == pass_pointer_next(
                old(self).spec_len(),
                old(self).pointer as int,
                old(self).completed as int,
            ),
            final(self).completed as int == pass_completed_next(
                old(self).spec_len(),
                old(self).pointer as int,
                old(self).completed as int,
            ),
            final(self).aux as int == selection_aux_next(
                old(self).direction as int,
                old(self).columns@,
                old(self).pointer as int,
                old(self).completed as int,
                old(self).aux as int,
            ),
            final(self).columns@.to_multiset() == old(self).columns@.to_multiset(),
            final(self).columns@.len() == old(self).columns@.len(),
            final(self).algorithm == old(self).algorithm,
            final(self).direction == old(self).direction,
            final(self).paused == old(self).paused,
            final(self).do_tick == old(self).do_tick,
    {
        let j = self.pointer + 1;
        let best = if dir_out_of_order(self.direction, self.columns[j], self.columns[self.aux]) {
            j
        } else {
            self.aux
        };
        if self.pointer < self.columns.len() - 2 - self.completed {
            self.aux = best;
            self.pointer = self.pointer + 1;
        } else {
            let dest = self.columns.len() - 1 - self.completed;
            let x = self.columns[best];
            let y = self.columns[dest];
            self.columns.set(best, y);
            self.columns.set(dest, x);
            proof {
                assert(self.columns@ =~= swap_at(old(self).columns@, best as int, dest as int));
                lemma_swap_at_multiset(old(self).columns@, best as int, dest as int);
            }
            self.aux = 0;
            self.pointer = 0;
            if self.completed < self.columns.len() - 2 {
                self.completed = self.completed + 1;
            }
        }
    }

    /// One insertion-sort step: while the key of the current pass is out of
    /// order with its left neighbour, swap it one place left; once it rests,
    /// the next pass begins.
    pub fn insertion_step(&mut self)
        requires
            old(self).wf(),
            old(self).algorithm == Algorithm::Insertion,
        ensures
            final(self).wf(),
            final(self).columns@ == insertion_bars_next(
                old(self).direction as int,
                old(self).columns@,
                old(self).completed as int,
                old(self).aux as int,
            ),
            final(self).pointer == 0,
            final(self).completed as int == insertion_completed_next(
                old(self).direction as int,
                old(self).columns@,
                old(self).completed as int,
                old(self).aux as int,
            ),
            final(self).aux as int == insertion_aux_next(
                old(self).direction as int,
                old(self).columns@,
                old(self).completed as int,
                old(self).aux as int,
            ),
            final(self).columns@.to_multiset() == old(self).columns@.to_multiset(),
            final(self).columns@.len() == old(self).columns@.len(),
            final(self).algorithm == old(self).algorithm,
            final(self).direction == old(self).direction,
            final(self).paused == old(self).paused,
            final(self).do_tick == old(self).do_tick,
    {
        let k = self.completed + 1 - self.aux;
        if k > 0 && dir_out_of_order(self.direction, self.columns[k - 1], self.columns[k]) {
            let x = self.columns[k - 1];
            let y = self.columns[k];
            self.columns.set(k - 1, y);
            self.columns.set(k, x);
            proof {
                assert(self.columns@ =~= swap_at(old(self).columns@, k - 1 as int, k as int));
                lemma_swap_at_multiset(old(self).columns@, k - 1 as int, k as int);
            }
            self.aux = self.aux + 1;
        } else {
            self.aux = 0;
            if self.completed < self.columns.len() - 2 {
                self.completed = self.completed + 1;
            }
        }
    }

    /// Advance the selected algorithm by one bounded unit of work.
    pub fn step(&mut self)
        requires
            old(self).wf(),
        ensures
            final(self).wf(),
            final(self).columns@ == old(self).next_bars(),
            final(self).pointer as int == old(self).next_pointer(),
            final(self).completed as int == old(self).next_completed(),
            final(self).aux as int == old(self).next_aux(),
            final(self).columns@.to_multiset() == old(self).columns@.to_multiset(),
            final(self).columns@.len() == old(self).columns@.len(),
            final(self).algorithm == old(self).algorithm,
            final(self).direction == old(self).direction,
            final(self).paused == old(self).paused,
            final(self).do_tick == old(self).do_tick,
    {
        match self.algorithm {
            Algorithm::Bubble => self.bubble_step(),
            Algorithm::Selection => self.selection_step(),
            Algorithm::Insertion => self.insertion_step(),
        }
    }

    /// One frame tick: run a step unless paused, or when a single tick is
    /// pending; a pending single-tick request is consumed.
    pub fn tick(&mut self)
        requires
            old(self).wf(),
        ensures
            final(self).wf(),
            final(self).do_tick == false,
            final(self).paused == old(self).paused,
            final(self).algorithm == old(self).algorithm,
            final(self).direction == old(self).direction,
            old(self).paused && !old(self).do_tick ==> final(self).columns == old(self).columns
                && final(self).pointer == old(self).pointer
                && final(self).completed == old(self).completed
                && final(self).aux == old(self).aux,
            !old(self).paused || old(self).do_tick ==> final(self).columns@ == old(self).next_bars()
                && final(self).pointer as int == old(self).next_pointer()
                && final(self).completed as int == old(self).next_completed()
                && final(self).aux as int == old(self).next_aux(),
            final(self).columns@.to_multiset() == old(self).columns@.to_multiset(),
    {
        if !self.paused || self.do_tick {
            self.do_tick = false;
            self.step();
        } else {
            self.do_tick = false;
        }
    }
}

} // verus!
