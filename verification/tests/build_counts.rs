use rustsynth::eval::{
    apply_setting, interpret_setting, primitive_kind, set_rules_max_depth, BuildLimits, DepthBudgets,
    RecursionMode,
};
use rustsynth::expansion::{apply_custom, push_action_branches, Branch};
use rustsynth::parser::parse;
use rustsynth::resolution::resolve;
use rustsynth::rng::Rng;
use rustsynth::rule_graph::{RuleNode, StartItem};
use rustsynth::scene::PrimitiveKind;
use rustsynth::schedule::{Pending, Schedule};

/// Parse, resolve and expand `source`, returning the kinds of the emitted
/// objects (an ambiguous rule takes its first variant).
fn emitted_kinds(source: &str) -> Vec<PrimitiveKind> {
    let pr = parse(source);
    assert!(pr.diagnostics.is_empty(), "{:?}", pr.diagnostics);
    let (mut graph, diags) = resolve(&pr.script);
    assert!(diags.is_empty(), "{:?}", diags);
    let mut limits = BuildLimits::default();
    let mut rng = Rng::new(0);
    let mut start: Vec<Branch> = Vec::new();
    for item in &graph.start_items {
        match item {
            StartItem::SetCmd(c) => apply_setting(&mut limits, &mut rng, &interpret_setting(&c.key, &c.value)),
            StartItem::Action(a) => push_action_branches(a, &DepthBudgets::new(), None, &mut start),
        }
    }
    if limits.mode == RecursionMode::DepthFirst && limits.max_generations > 0 {
        set_rules_max_depth(&mut graph, limits.max_generations);
    }
    let start = start
        .into_iter()
        .map(|b| Pending { target: b.target, budgets: b.budgets, seed: 0, state: 0 })
        .collect();
    let mut schedule = Schedule::new(&limits, start);
    let mut kinds = Vec::new();
    while let Some(p) = schedule.take(&mut rng) {
        let rule = match graph.get(&p.target) {
            Some(RuleNode::Primitive { kind_name, class_tag }) => {
                let k = primitive_kind(kind_name, class_tag);
                let emitted = k.is_some();
                kinds.extend(k);
                schedule.finish(emitted, vec![]);
                continue;
            }
            Some(RuleNode::Custom(c)) => c,
            Some(RuleNode::Ambiguous(a)) => &a.variants[0],
            None => {
                schedule.finish(false, vec![]);
                continue;
            }
        };
        let next = apply_custom(rule, &p.budgets)
            .into_iter()
            .map(|b| Pending { target: b.target, budgets: b.budgets, seed: p.seed, state: p.state })
            .collect();
        schedule.finish(false, next);
    }
    assert_eq!(kinds.len(), schedule.objects());
    kinds
}

#[test]
fn box_script_expands_to_one_box() {
    assert_eq!(emitted_kinds("box"), vec![PrimitiveKind::Box]);
}

#[test]
fn rule_with_bare_target_expands_to_its_primitive() {
    assert_eq!(emitted_kinds("rule T { sphere } T"), vec![PrimitiveKind::Sphere]);
}

#[test]
fn loop_count_expands_to_that_many_instances() {
    assert_eq!(emitted_kinds("3 * { rz 120 } box").len(), 3);
}

#[test]
fn rule_maxdepth_bounds_the_recursion() {
    let source = r#"
        set maxdepth 5
        R1
        rule R1 maxdepth 3 { { x 1 } R1  box }
    "#;
    let kinds = emitted_kinds(source);
    assert!(kinds.len() <= 3);
    assert_eq!(kinds.len(), 3);
}

#[test]
fn retirement_rule_runs_once_the_budget_is_spent() {
    let source = "R\nrule R md 2 > S { R box }\nrule S { sphere }";
    let kinds = emitted_kinds(source);
    assert_eq!(kinds.iter().filter(|k| **k == PrimitiveKind::Box).count(), 2);
    assert_eq!(kinds.iter().filter(|k| **k == PrimitiveKind::Sphere).count(), 1);
}

#[test]
fn object_cap_stops_a_depth_first_build() {
    let source = "set recursion depth\nset maxobjects 10\nR\nrule R { R box }";
    assert_eq!(emitted_kinds(source).len(), 10);
}

#[test]
fn generation_cap_stops_a_breadth_first_build() {
    let source = "set maxdepth 4\nR\nrule R { R box }";
    assert_eq!(emitted_kinds(source).len(), 3);
}
