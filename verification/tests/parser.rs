use rustsynth::ast::{Action, Statement, Transform};
use rustsynth::diagnostics::Severity;
use rustsynth::lexer::tokenize;
use rustsynth::parser::parse;
use rustsynth::resolution::resolve;
use rustsynth::rule_graph::{RuleNode, StartItem};

fn transform_texts(ts: &[Transform]) -> Vec<(String, Vec<String>)> {
    ts.iter().map(|t| (t.op.clone(), t.args.clone())).collect()
}

fn strings(v: &[&str]) -> Vec<String> {
    v.iter().map(|s| s.to_string()).collect()
}

fn one_error(source: &str) -> (u32, String) {
    let r = parse(source);
    assert_eq!(r.diagnostics.len(), 1, "{:?}", r.diagnostics);
    assert_eq!(r.diagnostics[0].severity, Severity::Error);
    (r.diagnostics[0].line, r.diagnostics[0].message.clone())
}

#[test]
fn tokens_of_a_line() {
    let cs: Vec<char> = "3 * { rz 120 } box // note\n#define x 1\n  w -0.5".chars().collect();
    let toks = tokenize(&cs);
    let texts: Vec<(String, u32)> = toks
        .iter()
        .map(|t| (cs[t.start..t.end].iter().collect::<String>(), t.line))
        .collect();
    let expected: Vec<(String, u32)> = vec![
        ("3".to_string(), 1),
        ("*".to_string(), 1),
        ("{".to_string(), 1),
        ("rz".to_string(), 1),
        ("120".to_string(), 1),
        ("}".to_string(), 1),
        ("box".to_string(), 1),
        ("w".to_string(), 3),
        ("-0.5".to_string(), 3),
    ];
    assert_eq!(texts, expected);
}

#[test]
fn brackets_and_block_comments_in_tokens() {
    let cs: Vec<char> = "triangle[0 0 0; 1 0 0; 0 1 0] /* a\nb */ box{".chars().collect();
    let toks = tokenize(&cs);
    let texts: Vec<String> = toks.iter().map(|t| cs[t.start..t.end].iter().collect()).collect();
    assert_eq!(texts, strings(&["triangle[0 0 0; 1 0 0; 0 1 0]", "box", "{"]));
    assert_eq!(toks[1].line, 2);
}

#[test]
fn box_is_one_invocation_of_box() {
    let r = parse("box");
    assert!(r.diagnostics.is_empty());
    assert_eq!(r.script.statements.len(), 1);
    match &r.script.statements[0] {
        Statement::Invocation(inv) => {
            assert_eq!(inv.target, "box");
            assert!(inv.transforms.is_empty());
            assert_eq!(inv.count, None);
        }
        _ => panic!("expected an invocation"),
    }
    let (graph, diags) = resolve(&r.script);
    assert!(diags.is_empty());
    assert_eq!(graph.start_items.len(), 1);
    assert!(matches!(graph.get("box"), Some(RuleNode::Primitive { .. })));
}

#[test]
fn rule_with_bare_target_parses_and_resolves() {
    let r = parse("rule T { sphere } T");
    assert!(r.diagnostics.is_empty());
    assert_eq!(r.script.statements.len(), 2);
    match &r.script.statements[0] {
        Statement::RuleDef(d) => {
            assert_eq!(d.name, "T");
            assert_eq!(d.weight, None);
            assert_eq!(d.max_depth, None);
            assert_eq!(d.retirement, None);
            assert_eq!(d.body.len(), 1);
            assert_eq!(d.body[0].target, "sphere");
        }
        _ => panic!("expected a rule"),
    }
    let (graph, diags) = resolve(&r.script);
    assert!(diags.is_empty(), "{:?}", diags);
    assert!(matches!(graph.get("T"), Some(RuleNode::Custom(_))));
    assert!(matches!(graph.get("sphere"), Some(RuleNode::Primitive { .. })));
}

#[test]
fn loop_count_with_transform_block() {
    let r = parse("3 * { rz 120 } box");
    assert!(r.diagnostics.is_empty());
    assert_eq!(r.script.statements.len(), 1);
    match &r.script.statements[0] {
        Statement::Invocation(inv) => {
            assert_eq!(inv.count, Some(3));
            assert_eq!(inv.target, "box");
            assert_eq!(transform_texts(&inv.transforms), vec![("rz".to_string(), strings(&["120"]))]);
        }
        _ => panic!("expected an invocation"),
    }
}

#[test]
fn set_command_then_invocation() {
    let r = parse("set background #ff0000\nbox");
    assert!(r.diagnostics.is_empty());
    assert_eq!(r.script.statements.len(), 2);
    match &r.script.statements[0] {
        Statement::SetCmd(c) => {
            assert_eq!(c.key, "background");
            assert_eq!(c.value, "#ff0000");
        }
        _ => panic!("expected a set command"),
    }
    let (graph, diags) = resolve(&r.script);
    assert!(diags.is_empty());
    assert!(matches!(graph.start_items[0], StartItem::SetCmd(_)));
    assert!(matches!(graph.start_items[1], StartItem::Action(_)));
}

#[test]
fn maxdepth_and_weight_modifiers() {
    let source = "
        set maxdepth 5
        R1
        rule R1 maxdepth 3 { { x 1 } R1  box }
        rule T w 1 { box }
        rule T weight 2.5 md 4 > R1 { sphere }
    ";
    let r = parse(source);
    assert!(r.diagnostics.is_empty(), "{:?}", r.diagnostics);
    assert_eq!(r.script.statements.len(), 5);
    match &r.script.statements[2] {
        Statement::RuleDef(d) => {
            assert_eq!(d.name, "R1");
            assert_eq!(d.max_depth, Some(3));
            assert_eq!(d.body.len(), 2);
            assert_eq!(d.body[0].target, "R1");
            assert_eq!(
                transform_texts(&d.body[0].transforms),
                vec![("x".to_string(), strings(&["1"]))]
            );
            assert_eq!(d.body[1].target, "box");
        }
        _ => panic!("expected a rule"),
    }
    match &r.script.statements[4] {
        Statement::RuleDef(d) => {
            assert_eq!(d.weight.as_deref(), Some("2.5"));
            assert_eq!(d.max_depth, Some(4));
            assert_eq!(d.retirement.as_deref(), Some("R1"));
        }
        _ => panic!("expected a rule"),
    }
    let (graph, diags) = resolve(&r.script);
    assert!(diags.is_empty(), "{:?}", diags);
    assert!(matches!(graph.get("T"), Some(RuleNode::Ambiguous(_))));
}

#[test]
fn transform_arguments() {
    let r = parse("{ s 1 2 3 fx color #fa0 blend red 0.5 hue -20 } box");
    assert!(r.diagnostics.is_empty(), "{:?}", r.diagnostics);
    match &r.script.statements[0] {
        Statement::Invocation(inv) => {
            assert_eq!(
                transform_texts(&inv.transforms),
                vec![
                    ("s".to_string(), strings(&["1", "2", "3"])),
                    ("fx".to_string(), vec![]),
                    ("color".to_string(), strings(&["#fa0"])),
                    ("blend".to_string(), strings(&["red", "0.5"])),
                    ("hue".to_string(), strings(&["-20"])),
                ]
            );
        }
        _ => panic!("expected an invocation"),
    }
}

#[test]
fn syntax_errors_are_reported_with_their_line() {
    assert_eq!(one_error("box\n{ x 1 box"), (2, "Unclosed '{'".to_string()));
    assert_eq!(one_error("rule { box }"), (1, "Expected a rule name after 'rule'".to_string()));
    assert_eq!(one_error("rule R\n"), (1, "Expected '{' to open the rule body".to_string()));
    assert_eq!(one_error("rule R foo { box }"), (1, "Unexpected token in rule definition".to_string()));
    assert_eq!(one_error("rule R md x { box }"), (1, "Expected a number after 'maxdepth'".to_string()));
    assert_eq!(one_error("rule R md 2 > { box }"), (1, "Expected a rule name after '>'".to_string()));
    assert_eq!(one_error("rule R w x { box }"), (1, "Expected a number after 'weight'".to_string()));
    assert_eq!(one_error("set background"), (1, "Expected a key and a value after 'set'".to_string()));
    assert_eq!(one_error("a * { x 1 } box"), (1, "Expected a loop count before '*'".to_string()));
    assert_eq!(one_error("3 * box"), (1, "Expected '{' after a loop count".to_string()));
    assert_eq!(one_error("{ x 1 }\n}"), (2, "Expected a rule name".to_string()));
    assert_eq!(one_error("{ * } box"), (1, "Expected a transformation".to_string()));
    assert_eq!(one_error("{ color } box"), (1, "Expected a colour after 'color'".to_string()));
    assert_eq!(
        one_error("{ blend red } box"),
        (1, "Expected a colour and a strength after 'blend'".to_string())
    );
}

#[test]
fn statements_before_an_error_are_kept() {
    let r = parse("box\nsphere\n}\ngrid");
    assert_eq!(r.script.statements.len(), 2);
    assert_eq!(r.diagnostics.len(), 1);
    assert_eq!(r.diagnostics[0].line, 3);
}

#[test]
fn empty_and_comment_only_sources_have_no_statements() {
    for s in ["", "   \n\t", "// only a comment", "/* block */", "#define size 3"] {
        let r = parse(s);
        assert!(r.script.statements.is_empty());
        assert!(r.diagnostics.is_empty());
    }
}

#[test]
fn invocation_actions_keep_their_parts() {
    let r = parse("2 * { y 1 } R");
    match &r.script.statements[0] {
        Statement::Invocation(inv) => {
            let a: Action = inv.to_action();
            assert_eq!(a.count, Some(2));
            assert_eq!(a.target, "R");
        }
        _ => panic!("expected an invocation"),
    }
}

#[test]
fn default_script_parses_and_resolves_cleanly() {
    let r = parse(rustsynth::session::DEFAULT_SCRIPT);
    assert!(r.diagnostics.is_empty(), "{:?}", r.diagnostics);
    assert_eq!(r.script.statements.len(), 6);
    let (graph, diags) = resolve(&r.script);
    assert!(diags.is_empty(), "{:?}", diags);
    assert!(rustsynth::validation::validate(&graph).is_empty());
}

#[test]
fn settings_inside_a_rule_body_are_read_and_dropped() {
    let r = parse("rule R { set maxdepth 3 box }");
    assert!(r.diagnostics.is_empty(), "{:?}", r.diagnostics);
    match &r.script.statements[0] {
        Statement::RuleDef(d) => {
            assert_eq!(d.body.len(), 1);
            assert_eq!(d.body[0].target, "box");
        }
        _ => panic!("expected a rule"),
    }
    assert_eq!(
        one_error("rule R { set maxdepth }"),
        (1, "Expected a key and a value after 'set'".to_string())
    );
}
