use rustsynth::ast::{Action, Transform};
use rustsynth::eval::DepthBudgets;
use rustsynth::expansion::{apply_custom, push_action_branches};
use rustsynth::rule_graph::CustomRuleNode;

fn action(count: Option<u32>, transforms: usize, target: &str) -> Action {
    Action {
        transforms: (0..transforms)
            .map(|_| Transform { op: "x".to_string(), args: vec!["1".to_string()] })
            .collect(),
        count,
        target: target.to_string(),
    }
}

fn rule(name: &str, max_depth: Option<u32>, retirement: Option<&str>, body: Vec<Action>) -> CustomRuleNode {
    CustomRuleNode {
        name: name.to_string(),
        weight: None,
        max_depth,
        retirement: retirement.map(|s| s.to_string()),
        body,
    }
}

#[test]
fn action_iterations() {
    let b = DepthBudgets::new();
    let mut out = Vec::new();
    push_action_branches(&action(None, 0, "box"), &b, None, &mut out);
    push_action_branches(&action(None, 1, "R"), &b, None, &mut out);
    push_action_branches(&action(Some(3), 1, "box"), &b, None, &mut out);
    push_action_branches(&action(Some(0), 1, "box"), &b, None, &mut out);
    let reps: Vec<(String, u32)> = out.iter().map(|x| (x.target.clone(), x.repeats)).collect();
    assert_eq!(
        reps,
        vec![
            ("box".to_string(), 0),
            ("R".to_string(), 1),
            ("box".to_string(), 1),
            ("box".to_string(), 2),
            ("box".to_string(), 3),
            ("box".to_string(), 1),
        ]
    );
}

#[test]
fn calling_rule_budget_is_passed_on() {
    let mut b = DepthBudgets::new();
    b.insert("Q", 7);
    let mut out = Vec::new();
    push_action_branches(&action(Some(2), 1, "R"), &b, Some(("R", 4)), &mut out);
    assert_eq!(out.len(), 2);
    for x in &out {
        assert_eq!(x.budgets.get("R"), Some(4));
        assert_eq!(x.budgets.get("Q"), Some(7));
    }
    assert_eq!(b.get("R"), None);
}

#[test]
fn rule_body_runs_max_depth_times_then_retires() {
    let r = rule("R1", Some(3), Some("done"), vec![action(None, 1, "R1"), action(None, 0, "box")]);
    let mut budgets = DepthBudgets::new();
    let mut applications = 0;
    loop {
        let branches = apply_custom(&r, &budgets);
        if branches.iter().any(|x| x.target == "done") {
            assert_eq!(branches.len(), 1);
            assert_eq!(branches[0].budgets.get("R1"), Some(3));
            break;
        }
        applications += 1;
        assert_eq!(branches.len(), 2);
        let next = branches.into_iter().find(|x| x.target == "R1").unwrap();
        assert_eq!(next.budgets.get("R1"), Some(3 - applications));
        budgets = next.budgets;
    }
    assert_eq!(applications, 3);
}

#[test]
fn rule_without_max_depth_passes_no_budget() {
    let r = rule("T", None, None, vec![action(Some(3), 1, "T")]);
    let branches = apply_custom(&r, &DepthBudgets::new());
    assert_eq!(branches.len(), 3);
    assert!(branches.iter().all(|x| x.budgets.get("T").is_none()));
}

#[test]
fn spent_rule_without_retirement_queues_nothing() {
    let r = rule("R", Some(1), None, vec![action(None, 0, "box")]);
    let mut b = DepthBudgets::new();
    b.insert("R", 0);
    assert!(apply_custom(&r, &b).is_empty());
}
