use rustsynth::counters::{advance, counter_tuples};

#[test]
fn single_loop_counts_up() {
    assert_eq!(counter_tuples(&vec![3]), vec![vec![1], vec![2], vec![3]]);
}

#[test]
fn first_counter_runs_fastest() {
    let t = counter_tuples(&vec![2, 3]);
    assert_eq!(
        t,
        vec![vec![1, 1], vec![2, 1], vec![1, 2], vec![2, 2], vec![1, 3], vec![2, 3]]
    );
}

#[test]
fn three_loops_cover_the_product() {
    let t = counter_tuples(&vec![2, 3, 4]);
    assert_eq!(t.len(), 24);
    for (k, c) in t.iter().enumerate() {
        let rank = (c[0] - 1) + 2 * (c[1] - 1) + 6 * (c[2] - 1);
        assert_eq!(rank as usize, k);
    }
}

#[test]
fn no_loops_is_one_bare_combination() {
    assert_eq!(counter_tuples(&vec![]), vec![Vec::<u32>::new()]);
}

#[test]
fn zero_counts_follow_the_carry_rule() {
    assert_eq!(counter_tuples(&vec![0]), vec![vec![1]]);
    assert_eq!(counter_tuples(&vec![2, 0]), vec![vec![1, 1]]);
    assert_eq!(counter_tuples(&vec![0, 2]), vec![vec![1, 1], vec![1, 2]]);
    assert_eq!(counter_tuples(&vec![2, 0, 3]), vec![vec![1, 1, 1], vec![2, 1, 2], vec![1, 1, 3]]);
}

#[test]
fn advance_steps_and_stops() {
    let counts = vec![2, 2];
    let mut c = vec![1, 1];
    assert!(advance(&mut c, &counts));
    assert_eq!(c, vec![2, 1]);
    assert!(advance(&mut c, &counts));
    assert_eq!(c, vec![1, 2]);
    assert!(advance(&mut c, &counts));
    assert_eq!(c, vec![2, 2]);
    assert!(!advance(&mut c, &counts));
}
