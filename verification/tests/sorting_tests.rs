use sorting_algorithms::stepper::{Algorithm, SortStepper};

fn is_sorted_asc(v: &Vec<i32>) -> bool {
    v.windows(2).all(|w| w[0] <= w[1])
}

fn is_sorted_desc(v: &Vec<i32>) -> bool {
    v.windows(2).all(|w| w[0] >= w[1])
}

/// Enough bubble steps to sort `n` columns from a fresh cursor:
/// `(n - 1) + (n - 2) + ... + 1` comparisons.
fn bubble_budget(n: usize) -> usize {
    n * (n - 1) / 2
}

#[test]
fn randomize_then_bubble_restores_identity() {
    // Four full passes over five columns suffice whatever permutation the
    // shuffle produced.
    let mut st = SortStepper::new(5);
    st.randomize();
    for _ in 0..4 * (5 - 1) {
        st.step();
    }
    assert_eq!(st.columns, vec![1, 2, 3, 4, 5]);
}

#[test]
fn bubble_sorts_ascending_and_stays_sorted() {
    let mut st = SortStepper::new(8);
    st.randomize();
    for _ in 0..bubble_budget(8) {
        st.step();
    }
    assert!(is_sorted_asc(&st.columns));
    let sorted = st.columns.clone();
    for _ in 0..10 {
        st.step();
        assert_eq!(st.columns, sorted);
    }
}

#[test]
fn bubble_direction_symmetry() {
    let mut up = SortStepper::new(7);
    up.randomize();
    let mut down = SortStepper::new(7);
    down.columns = up.columns.clone();
    down.set_direction(-1);
    for _ in 0..bubble_budget(7) {
        up.step();
        down.step();
    }
    assert!(is_sorted_asc(&up.columns));
    assert!(is_sorted_desc(&down.columns));
    let mut reversed = up.columns.clone();
    reversed.reverse();
    assert_eq!(down.columns, reversed);
}

#[test]
fn bubble_sorts_descending() {
    let mut st = SortStepper::new(6);
    st.randomize();
    st.set_direction(-1);
    for _ in 0..bubble_budget(6) {
        st.step();
    }
    assert_eq!(st.columns, vec![6, 5, 4, 3, 2, 1]);
}

#[test]
fn selection_sorts_ascending() {
    let mut st = SortStepper::new(7);
    st.randomize();
    st.set_algorithm(1);
    assert_eq!(st.algorithm, Algorithm::Selection);
    for _ in 0..7 * 7 {
        st.step();
    }
    assert_eq!(st.columns, vec![1, 2, 3, 4, 5, 6, 7]);
}

#[test]
fn selection_sorts_descending() {
    let mut st = SortStepper::new(6);
    st.randomize();
    st.set_algorithm(1);
    st.set_direction(-1);
    for _ in 0..6 * 6 {
        st.step();
    }
    assert_eq!(st.columns, vec![6, 5, 4, 3, 2, 1]);
}

#[test]
fn insertion_sorts_ascending() {
    let mut st = SortStepper::new(7);
    st.randomize();
    st.set_algorithm(-1);
    assert_eq!(st.algorithm, Algorithm::Insertion);
    for _ in 0..7 * 8 {
        st.step();
    }
    assert_eq!(st.columns, vec![1, 2, 3, 4, 5, 6, 7]);
}

#[test]
fn insertion_sorts_descending() {
    let mut st = SortStepper::new(6);
    st.randomize();
    st.set_algorithm(-1);
    st.set_direction(-1);
    for _ in 0..6 * 7 {
        st.step();
    }
    assert_eq!(st.columns, vec![6, 5, 4, 3, 2, 1]);
}

#[test]
fn steps_preserve_multiset_mid_sort() {
    let mut st = SortStepper::new(9);
    st.randomize();
    let mut reference = st.columns.clone();
    reference.sort();
    for _ in 0..11 {
        st.step();
        let mut now = st.columns.clone();
        now.sort();
        assert_eq!(now, reference);
    }
}

#[test]
fn exact_step_budgets_sort_the_worst_case() {
    // The proved budgets: bubble and selection need (n-1) + ... + 1 steps
    // from a fresh cursor; insertion needs 2 + 3 + ... + (n - 1) + n.
    let n: usize = 5;
    let worst = vec![5, 4, 3, 2, 1];

    let mut st = SortStepper::new(n);
    st.columns = worst.clone();
    for _ in 0..bubble_budget(n) {
        st.step();
    }
    assert_eq!(st.columns, vec![1, 2, 3, 4, 5]);

    let mut st = SortStepper::new(n);
    st.set_algorithm(1);
    st.columns = worst.clone();
    for _ in 0..bubble_budget(n) {
        st.step();
    }
    assert_eq!(st.columns, vec![1, 2, 3, 4, 5]);

    let mut st = SortStepper::new(n);
    st.set_algorithm(-1);
    st.columns = worst.clone();
    let insertion_budget: usize = (2..=n).sum();
    for _ in 0..insertion_budget {
        st.step();
    }
    assert_eq!(st.columns, vec![1, 2, 3, 4, 5]);
}
