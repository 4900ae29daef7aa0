use rustsynth::eval::{BuildLimits, DepthBudgets, RecursionMode};
use rustsynth::rng::Rng;
use rustsynth::schedule::{Pending, Schedule};

fn item(target: &str, state: usize) -> Pending {
    Pending { target: target.to_string(), budgets: DepthBudgets::new(), seed: 0, state }
}

fn limits(mode: RecursionMode, max_generations: u32, max_objects: usize) -> BuildLimits {
    BuildLimits { max_generations, max_objects, sync_random: false, mode, seed: 0 }
}

fn take_name(s: &mut Schedule, rng: &mut Rng) -> Option<String> {
    s.take(rng).map(|p| p.target)
}

#[test]
fn breadth_first_visits_generation_by_generation() {
    let mut rng = Rng::new(1);
    let mut s = Schedule::new(&limits(RecursionMode::BreadthFirst, 2, 100), vec![item("A", 0), item("B", 1)]);
    assert_eq!(take_name(&mut s, &mut rng).as_deref(), Some("A"));
    assert_eq!(s.generation(), 1);
    s.finish(false, vec![item("C", 2)]);
    assert_eq!(take_name(&mut s, &mut rng).as_deref(), Some("B"));
    s.finish(true, vec![item("D", 3), item("E", 4)]);
    assert_eq!(take_name(&mut s, &mut rng).as_deref(), Some("C"));
    assert_eq!(s.generation(), 2);
    s.finish(false, vec![item("F", 5)]);
    assert_eq!(take_name(&mut s, &mut rng).as_deref(), Some("D"));
    s.finish(true, vec![]);
    assert_eq!(take_name(&mut s, &mut rng).as_deref(), Some("E"));
    s.finish(true, vec![]);
    // Two generations have run: F is never visited.
    assert_eq!(take_name(&mut s, &mut rng), None);
    assert_eq!(s.objects(), 3);
    assert_eq!(s.generation(), 2);
}

#[test]
fn breadth_first_stops_at_the_object_cap_between_generations() {
    let mut rng = Rng::new(1);
    let mut s = Schedule::new(&limits(RecursionMode::BreadthFirst, 10, 2), vec![item("A", 0)]);
    assert_eq!(take_name(&mut s, &mut rng).as_deref(), Some("A"));
    s.finish(true, vec![item("B", 1)]);
    assert_eq!(take_name(&mut s, &mut rng).as_deref(), Some("B"));
    s.finish(true, vec![item("C", 2)]);
    assert_eq!(take_name(&mut s, &mut rng), None);
}

#[test]
fn depth_first_visits_children_before_siblings() {
    let mut rng = Rng::new(1);
    let mut s = Schedule::new(&limits(RecursionMode::DepthFirst, 0, 100), vec![item("A", 0), item("B", 1)]);
    assert_eq!(take_name(&mut s, &mut rng).as_deref(), Some("A"));
    s.finish(false, vec![item("C", 2), item("D", 3)]);
    assert_eq!(take_name(&mut s, &mut rng).as_deref(), Some("C"));
    s.finish(true, vec![]);
    assert_eq!(take_name(&mut s, &mut rng).as_deref(), Some("D"));
    s.finish(true, vec![]);
    assert_eq!(take_name(&mut s, &mut rng).as_deref(), Some("B"));
    s.finish(false, vec![]);
    assert_eq!(take_name(&mut s, &mut rng), None);
    assert_eq!(s.objects(), 2);
}

#[test]
fn depth_first_stops_at_the_object_cap() {
    let mut rng = Rng::new(1);
    let mut s = Schedule::new(&limits(RecursionMode::DepthFirst, 0, 1), vec![item("A", 0), item("B", 1)]);
    assert_eq!(take_name(&mut s, &mut rng).as_deref(), Some("A"));
    s.finish(true, vec![item("C", 2)]);
    assert_eq!(take_name(&mut s, &mut rng), None);
    assert_eq!(s.objects(), 1);
}

#[test]
fn seeded_branches_restart_the_generator() {
    let mut rng = Rng::new(99);
    let mut s = Schedule::new(
        &limits(RecursionMode::BreadthFirst, 5, 10),
        vec![Pending { target: "A".to_string(), budgets: DepthBudgets::new(), seed: 5, state: 0 }],
    );
    let p = s.take(&mut rng).unwrap();
    let mut reference = Rng::new(5);
    let first = reference.next_u64();
    assert_eq!(p.seed, first);
    assert_eq!(rng.next_u64(), reference.next_u64());
}

#[test]
fn sync_random_restarts_each_visit_from_the_generation_seed() {
    let mut rng = Rng::new(7);
    let l = BuildLimits { max_generations: 5, max_objects: 10, sync_random: true, mode: RecursionMode::BreadthFirst, seed: 7 };
    let mut s = Schedule::new(&l, vec![item("A", 0), item("B", 1)]);
    let mut reference = Rng::new(7);
    let sync_seed = reference.next_u64();
    s.take(&mut rng).unwrap();
    let after_first = rng.next_u64();
    s.finish(false, vec![]);
    s.take(&mut rng).unwrap();
    let after_second = rng.next_u64();
    assert_eq!(after_first, after_second);
    assert_eq!(after_first, Rng::new(sync_seed).next_u64());
}
