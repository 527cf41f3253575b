use sorting_algorithms::stepper::{Algorithm, SortStepper};

fn sorted_copy(v: &Vec<i32>) -> Vec<i32> {
    let mut c = v.clone();
    c.sort();
    c
}

#[test]
fn new_builds_identity_sequence() {
    let st = SortStepper::new(5);
    assert_eq!(st.columns, vec![1, 2, 3, 4, 5]);
    assert_eq!(st.num_cols(), 5);
    assert_eq!(st.algorithm, Algorithm::Bubble);
    assert_eq!(st.direction, 1);
    assert_eq!(st.pointer, 0);
    assert_eq!(st.completed, 0);
    assert!(!st.paused);
    assert!(!st.do_tick);
}

#[test]
fn bar_reads_single_columns() {
    let st = SortStepper::new(4);
    assert_eq!(st.bar(0), 1);
    assert_eq!(st.bar(3), 4);
}

#[test]
fn bubble_step_swaps_out_of_order_pair() {
    let mut st = SortStepper::new(3);
    st.columns = vec![3, 1, 2];
    st.step();
    assert_eq!(st.columns, vec![1, 3, 2]);
    assert_eq!(st.pointer, 1);
    assert_eq!(st.completed, 0);
}

#[test]
fn bubble_step_keeps_ordered_pair() {
    let mut st = SortStepper::new(3);
    st.step();
    assert_eq!(st.columns, vec![1, 2, 3]);
    assert_eq!(st.pointer, 1);
}

#[test]
fn bubble_pass_end_wraps_pointer_and_completes() {
    let mut st = SortStepper::new(3);
    st.step();
    st.step();
    assert_eq!(st.pointer, 0);
    assert_eq!(st.completed, 1);
}

#[test]
fn randomize_preserves_multiset() {
    let mut st = SortStepper::new(10);
    for _ in 0..20 {
        st.randomize();
        assert_eq!(sorted_copy(&st.columns), (1..=10).collect::<Vec<i32>>());
        assert_eq!(st.pointer, 0);
        assert_eq!(st.completed, 0);
    }
}

#[test]
fn resize_grow_appends_new_length() {
    let mut st = SortStepper::new(5);
    st.resize(1);
    assert_eq!(st.columns, vec![1, 2, 3, 4, 5, 6]);
    assert_eq!(st.num_cols(), 6);
    assert_eq!(st.pointer, 0);
    assert_eq!(st.completed, 0);
}

#[test]
fn resize_shrink_removes_the_maximum() {
    let mut st = SortStepper::new(5);
    st.randomize();
    st.resize(-1);
    assert_eq!(st.num_cols(), 4);
    assert_eq!(sorted_copy(&st.columns), vec![1, 2, 3, 4]);
}

#[test]
fn resize_shrink_removes_first_maximum_of_duplicates() {
    let mut st = SortStepper::new(3);
    st.columns = vec![3, 3, 1];
    st.resize(-1);
    assert_eq!(st.columns, vec![3, 1]);
}

#[test]
fn find_largest_picks_first_maximum() {
    let mut st = SortStepper::new(4);
    st.columns = vec![3, 1, 3, 2];
    assert_eq!(st.find_largest(), 0);
    st.columns = vec![1, 4, 2, 4];
    assert_eq!(st.find_largest(), 1);
}

#[test]
fn set_algorithm_cycles_forward_and_backward() {
    let mut st = SortStepper::new(4);
    assert_eq!(st.algorithm, Algorithm::Bubble);
    st.set_algorithm(1);
    assert_eq!(st.algorithm, Algorithm::Selection);
    st.set_algorithm(1);
    assert_eq!(st.algorithm, Algorithm::Insertion);
    st.set_algorithm(1);
    assert_eq!(st.algorithm, Algorithm::Bubble);
    st.set_algorithm(-1);
    assert_eq!(st.algorithm, Algorithm::Insertion);
    st.set_algorithm(-1);
    assert_eq!(st.algorithm, Algorithm::Selection);
}

#[test]
fn set_algorithm_resets_progress() {
    let mut st = SortStepper::new(5);
    st.step();
    assert_eq!(st.pointer, 1);
    st.set_algorithm(1);
    assert_eq!(st.pointer, 0);
    assert_eq!(st.completed, 0);
}

#[test]
fn set_direction_resets_progress() {
    let mut st = SortStepper::new(5);
    st.step();
    st.set_direction(-1);
    assert_eq!(st.direction, -1);
    assert_eq!(st.pointer, 0);
    assert_eq!(st.completed, 0);
}

#[test]
fn tick_respects_pause_and_single_step() {
    let mut st = SortStepper::new(3);
    st.columns = vec![3, 1, 2];
    st.toggle_pause();
    assert!(st.paused);
    st.tick();
    assert_eq!(st.columns, vec![3, 1, 2]);
    assert_eq!(st.pointer, 0);
    st.request_tick();
    st.tick();
    assert_eq!(st.columns, vec![1, 3, 2]);
    assert_eq!(st.pointer, 1);
    assert!(!st.do_tick);
    st.tick();
    assert_eq!(st.pointer, 1);
    st.toggle_pause();
    assert!(!st.paused);
    st.tick();
    assert_eq!(st.columns, vec![1, 2, 3]);
    assert_eq!(st.pointer, 0);
    assert_eq!(st.completed, 1);
}

#[test]
fn pointer_invariant_holds_across_operations() {
    let mut st = SortStepper::new(6);
    let check = |st: &SortStepper| {
        assert!(st.pointer + st.completed + 2 <= st.columns.len());
    };
    check(&st);
    st.randomize();
    check(&st);
    for _ in 0..40 {
        st.step();
        check(&st);
    }
    st.set_algorithm(1);
    check(&st);
    for _ in 0..40 {
        st.step();
        check(&st);
    }
    st.set_algorithm(1);
    check(&st);
    for _ in 0..40 {
        st.step();
        check(&st);
    }
    st.resize(1);
    check(&st);
    st.resize(-1);
    check(&st);
    st.set_direction(-1);
    check(&st);
    for _ in 0..40 {
        st.step();
        check(&st);
    }
}
