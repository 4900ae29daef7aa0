use rustsynth::ast::{Action, Invocation, RuleDef, Script, SetCmd, Statement};
use rustsynth::diagnostics::Severity;
use rustsynth::primitive::{is_builtin, is_triangle_ref, BUILTINS};
use rustsynth::resolution::{collect_from_action, collect_from_body, resolve};
use rustsynth::rule_graph::{RuleNode, StartItem};
use rustsynth::validation::validate;

fn action(target: &str) -> Action {
    Action { transforms: vec![], count: None, target: target.to_string() }
}

fn rule(name: &str, body: Vec<Action>, retirement: Option<&str>) -> Statement {
    Statement::RuleDef(RuleDef {
        name: name.to_string(),
        weight: Some("1".to_string()),
        max_depth: None,
        retirement: retirement.map(|s| s.to_string()),
        body,
    })
}

fn invoke(target: &str) -> Statement {
    Statement::Invocation(Invocation { transforms: vec![], count: None, target: target.to_string() })
}

#[test]
fn builtins_are_recognized() {
    for b in BUILTINS.iter() {
        assert!(is_builtin(b));
    }
    assert!(!is_builtin("triangle"));
    assert!(!is_builtin("Box"));
}

#[test]
fn triangle_refs_start_with_bracket() {
    assert!(is_triangle_ref("triangle[0 0 0; 1 0 0; 0 1 0]"));
    assert!(!is_triangle_ref("triangle"));
    assert!(!is_triangle_ref("xtriangle["));
}

#[test]
fn single_box_resolves_to_primitive() {
    let script = Script { statements: vec![invoke("box")] };
    let (graph, diags) = resolve(&script);
    assert!(diags.is_empty());
    match graph.get("box") {
        Some(RuleNode::Primitive { kind_name, class_tag }) => {
            assert_eq!(kind_name, "box");
            assert!(class_tag.is_none());
        }
        _ => panic!("box should be a primitive"),
    }
    assert_eq!(graph.start_items.len(), 1);
    assert!(validate(&graph).is_empty());
}

#[test]
fn same_name_rules_become_ambiguous() {
    let script = Script {
        statements: vec![
            rule("T", vec![action("box")], None),
            rule("T", vec![action("sphere")], None),
            rule("T", vec![action("dot")], None),
            invoke("T"),
        ],
    };
    let (graph, diags) = resolve(&script);
    assert!(diags.is_empty());
    match graph.get("T") {
        Some(RuleNode::Ambiguous(a)) => {
            assert_eq!(a.variants.len(), 3);
            assert_eq!(a.variants[0].body[0].target, "box");
            assert_eq!(a.variants[2].body[0].target, "dot");
        }
        _ => panic!("T should be ambiguous"),
    }
    assert!(matches!(graph.get("sphere"), Some(RuleNode::Primitive { .. })));
    assert!(validate(&graph).is_empty());
}

#[test]
fn redefining_builtin_is_reported() {
    let script = Script { statements: vec![rule("box", vec![], None)] };
    let (graph, diags) = resolve(&script);
    assert_eq!(diags.len(), 1);
    assert_eq!(diags[0].severity, Severity::Error);
    assert_eq!(diags[0].message, "Cannot redefine built-in primitive 'box'");
    assert!(graph.get("box").is_none());
}

#[test]
fn class_tags_and_triangles() {
    let script = Script {
        statements: vec![
            rule("R", vec![action("R::shiny")], None),
            invoke("box::metal"),
            invoke("triangle[0 0 0; 1 0 0; 0 1 0]"),
            invoke("R"),
        ],
    };
    let (graph, diags) = resolve(&script);
    assert_eq!(diags.len(), 1);
    assert_eq!(
        diags[0].message,
        "Class specifier '::shiny' is only valid on built-in primitives, not on user rule 'R'"
    );
    match graph.get("box::metal") {
        Some(RuleNode::Primitive { kind_name, class_tag }) => {
            assert_eq!(kind_name, "box");
            assert_eq!(class_tag.as_deref(), Some("metal"));
        }
        _ => panic!("box::metal should be a primitive"),
    }
    match graph.get("triangle[0 0 0; 1 0 0; 0 1 0]") {
        Some(RuleNode::Primitive { kind_name, class_tag }) => {
            assert_eq!(kind_name, "triangle");
            assert_eq!(class_tag.as_deref(), Some("[0 0 0; 1 0 0; 0 1 0]"));
        }
        _ => panic!("triangle should be a primitive"),
    }
    let v = validate(&graph);
    assert_eq!(v.len(), 1);
    assert_eq!(v[0].message, "Undefined rule reference: 'R::shiny'");
}

#[test]
fn set_recursion_depth_is_detected() {
    let script = Script {
        statements: vec![
            Statement::SetCmd(SetCmd { key: "recursion".into(), value: "depth".into() }),
            Statement::SetCmd(SetCmd { key: "maxdepth".into(), value: "5".into() }),
        ],
    };
    let (graph, _) = resolve(&script);
    assert!(graph.recurse_depth);
    assert_eq!(graph.start_items.len(), 2);
    assert!(matches!(&graph.start_items[1], StartItem::SetCmd(c) if c.key == "maxdepth"));
}

#[test]
fn undefined_targets_and_retirements_are_reported() {
    let script = Script {
        statements: vec![
            rule("A", vec![action("missing")], Some("gone")),
            invoke("nowhere"),
        ],
    };
    let (graph, diags) = resolve(&script);
    assert!(diags.is_empty());
    let v = validate(&graph);
    let msgs: Vec<&str> = v.iter().map(|d| d.message.as_str()).collect();
    assert_eq!(
        msgs,
        vec![
            "Undefined rule reference: 'nowhere'",
            "Undefined rule reference: 'missing'",
            "Undefined rule reference: 'gone'",
        ]
    );
}

#[test]
fn custom_retirement_builtin_is_resolved() {
    let script = Script {
        statements: vec![
            Statement::RuleDef(RuleDef {
                name: "R".to_string(),
                weight: Some("1".to_string()),
                max_depth: Some(3),
                retirement: Some("box".to_string()),
                body: vec![action("R")],
            }),
            invoke("R"),
        ],
    };
    let (graph, diags) = resolve(&script);
    assert!(diags.is_empty());
    match graph.get("box") {
        Some(RuleNode::Primitive { kind_name, class_tag }) => {
            assert_eq!(kind_name, "box");
            assert!(class_tag.is_none());
        }
        _ => panic!("box should be a primitive"),
    }
    assert!(validate(&graph).is_empty());
}

#[test]
fn collecting_targets_keeps_them_distinct() {
    let mut targets = vec!["a".to_string()];
    collect_from_body(&vec![action("a"), action("b"), action("b")], &mut targets);
    collect_from_action(&action("c"), &mut targets);
    collect_from_action(&action("a"), &mut targets);
    assert_eq!(targets, vec!["a", "b", "c"]);
}
