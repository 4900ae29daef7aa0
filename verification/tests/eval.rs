use rustsynth::ast::{Action, RuleDef};
use rustsynth::eval::{
    apply_setting, depth_step, interpret_setting, primitive_kind, reseed_branch,
    set_rules_max_depth, BuildLimits, DepthBudgets, DepthStep, RecursionMode, Setting,
};
use rustsynth::rng::Rng;
use rustsynth::rule_graph::{AmbiguousRuleNode, CustomRuleNode, RuleGraph, RuleNode};
use rustsynth::scene::PrimitiveKind;
use rustsynth::text::{parse_unsigned, str_eq_ignore_ascii_case};

#[test]
fn default_limits_and_mode() {
    let l = BuildLimits::default();
    assert_eq!(l.max_generations, 1000);
    assert_eq!(l.max_objects, 100_000);
    assert!(!l.sync_random);
    assert_eq!(l.mode, RecursionMode::BreadthFirst);
    assert_eq!(l.seed, 0);
    assert_eq!(RecursionMode::default(), RecursionMode::BreadthFirst);
}

#[test]
fn integer_settings_are_parsed() {
    assert!(matches!(interpret_setting("maxdepth", "5"), Setting::MaxGenerations(5)));
    assert!(matches!(interpret_setting("maxdepth", "+7"), Setting::MaxGenerations(7)));
    assert!(matches!(interpret_setting("maxdepth", "4294967295"), Setting::MaxGenerations(u32::MAX)));
    assert!(matches!(interpret_setting("maxdepth", "4294967296"), Setting::Ignored));
    assert!(matches!(interpret_setting("maxdepth", "-1"), Setting::Ignored));
    assert!(matches!(interpret_setting("maxdepth", " 5"), Setting::Ignored));
    assert!(matches!(interpret_setting("maxobjects", "250"), Setting::MaxObjects(250)));
    assert!(matches!(interpret_setting("seed", "42"), Setting::Seed(42)));
    assert!(matches!(interpret_setting("seed", "InItIaL"), Setting::Ignored));
    assert!(matches!(interpret_setting("seed", "x"), Setting::Ignored));
}

#[test]
fn flag_and_color_settings() {
    assert!(matches!(interpret_setting("syncrandom", "TRUE"), Setting::SyncRandom(true)));
    assert!(matches!(interpret_setting("syncrandom", "yes"), Setting::SyncRandom(false)));
    assert!(matches!(interpret_setting("recursion", "Depth"), Setting::DepthFirst));
    assert!(matches!(interpret_setting("recursion", "breadth"), Setting::Ignored));
    assert!(matches!(interpret_setting("background", "#ff0000"), Setting::Background(255, 0, 0)));
    assert!(matches!(interpret_setting("background", "#111"), Setting::Background(17, 17, 17)));
    assert!(matches!(interpret_setting("background", "white"), Setting::Ignored));
}

#[test]
fn float_camera_and_raw_settings_keep_text() {
    match interpret_setting("minsize", "0.5") {
        Setting::MinSize(t) => assert_eq!(t, "0.5"),
        _ => panic!("minsize"),
    }
    match interpret_setting("translation", "[0 0 -20]") {
        Setting::CameraTranslation(t) => assert_eq!(t, "[0 0 -20]"),
        _ => panic!("translation"),
    }
    assert!(matches!(interpret_setting("scale", "2"), Setting::CameraScale(_)));
    match interpret_setting("raytracer::shadows", "true") {
        Setting::Passthrough(k, v) => {
            assert_eq!(k, "raytracer::shadows");
            assert_eq!(v, "true");
        }
        _ => panic!("passthrough"),
    }
    assert!(matches!(interpret_setting("MaxDepth", "3"), Setting::Passthrough(_, _)));
}

#[test]
fn applying_settings_updates_limits_and_generator() {
    let mut l = BuildLimits::default();
    let mut rng = Rng::new(5);
    apply_setting(&mut l, &mut rng, &interpret_setting("maxdepth", "20"));
    apply_setting(&mut l, &mut rng, &interpret_setting("maxobjects", "30"));
    apply_setting(&mut l, &mut rng, &interpret_setting("syncrandom", "true"));
    apply_setting(&mut l, &mut rng, &interpret_setting("recursion", "depth"));
    assert_eq!(l.max_generations, 20);
    assert_eq!(l.max_objects, 30);
    assert!(l.sync_random);
    assert_eq!(l.mode, RecursionMode::DepthFirst);
    let mut untouched = Rng::new(5);
    assert_eq!(rng.next_u64(), untouched.next_u64());
    apply_setting(&mut l, &mut rng, &interpret_setting("seed", "42"));
    assert_eq!(l.seed, 42);
    let mut fresh = Rng::new(42);
    assert_eq!(rng.next_u64(), fresh.next_u64());
    apply_setting(&mut l, &mut rng, &interpret_setting("background", "#fff"));
    assert_eq!(l.max_generations, 20);
}

#[test]
fn unsigned_parsing_edge_cases() {
    assert_eq!(parse_unsigned("0", 10), Some(0));
    assert_eq!(parse_unsigned("10", 10), Some(10));
    assert_eq!(parse_unsigned("11", 10), None);
    assert_eq!(parse_unsigned("", 10), None);
    assert_eq!(parse_unsigned("+", 10), None);
    assert_eq!(parse_unsigned("007", 10), Some(7));
    assert_eq!(parse_unsigned("18446744073709551615", u64::MAX), Some(u64::MAX));
    assert_eq!(parse_unsigned("18446744073709551616", u64::MAX), None);
    assert!(str_eq_ignore_ascii_case("DePtH", "depth"));
    assert!(!str_eq_ignore_ascii_case("dept", "depth"));
}

#[test]
fn budgets_map_names_to_depths() {
    let mut b = DepthBudgets::new();
    assert_eq!(b.get("R1"), None);
    b.insert("R1", 3);
    b.insert("R2", 0);
    b.insert("R1", 2);
    assert_eq!(b.get("R1"), Some(2));
    assert_eq!(b.get("R2"), Some(0));
    let c = b.clone();
    assert_eq!(c.get("R1"), Some(2));
    assert_eq!(c.get("R3"), None);
}

#[test]
fn maxdepth_three_applies_three_times() {
    let mut remaining = None;
    let mut applications = 0;
    loop {
        match depth_step(Some(3), remaining) {
            DepthStep::Enter(next) => {
                applications += 1;
                remaining = next;
            }
            DepthStep::Retire(reset) => {
                assert_eq!(reset, 3);
                break;
            }
        }
    }
    assert_eq!(applications, 3);
}

#[test]
fn depth_step_cases() {
    assert_eq!(depth_step(None, Some(0)), DepthStep::Enter(None));
    assert_eq!(depth_step(Some(0), None), DepthStep::Enter(Some(-1)));
    assert_eq!(depth_step(Some(0), Some(-1)), DepthStep::Retire(0));
    assert_eq!(depth_step(Some(5), Some(1)), DepthStep::Enter(Some(0)));
    assert_eq!(depth_step(Some(4_000_000_000), None), DepthStep::Enter(Some(-294_967_297)));
    assert_eq!(depth_step(Some(4_000_000_000), Some(0)), DepthStep::Retire(-294_967_296));
}

#[test]
fn reseeding_a_branch() {
    let mut rng = Rng::new(9);
    let mut seed = 0u64;
    reseed_branch(&mut rng, &mut seed);
    assert_eq!(seed, 0);
    let mut same = Rng::new(9);
    assert_eq!(rng.next_u64(), same.next_u64());
    let mut seed = 42u64;
    reseed_branch(&mut rng, &mut seed);
    let mut expected = Rng::new(42);
    let v = expected.next_u64();
    assert_eq!(seed, v);
    assert_eq!(rng.next_u64(), expected.next_u64());
}

#[test]
fn primitive_kinds_by_name() {
    assert_eq!(primitive_kind("box", &None), Some(PrimitiveKind::Box));
    assert_eq!(primitive_kind("grid", &Some("x".into())), Some(PrimitiveKind::Grid));
    assert_eq!(
        primitive_kind("triangle", &Some("[0 0 0; 1 0 0; 0 1 0]".into())),
        Some(PrimitiveKind::Triangle("[0 0 0; 1 0 0; 0 1 0]".into()))
    );
    assert_eq!(primitive_kind("triangle", &None), Some(PrimitiveKind::Triangle(String::new())));
    assert_eq!(primitive_kind("teapot", &None), None);
}

fn custom(name: &str, max_depth: Option<u32>) -> CustomRuleNode {
    CustomRuleNode::from_rule_def(RuleDef {
        name: name.to_string(),
        weight: Some("1".to_string()),
        max_depth,
        retirement: None,
        body: vec![Action { transforms: vec![], count: None, target: "box".to_string() }],
    })
}

#[test]
fn global_depth_fills_missing_depths() {
    let mut g = RuleGraph {
        rules: vec![
            ("A".to_string(), RuleNode::Custom(custom("A", None))),
            ("B".to_string(), RuleNode::Custom(custom("B", Some(7)))),
            (
                "C".to_string(),
                RuleNode::Ambiguous(AmbiguousRuleNode {
                    name: "C".to_string(),
                    variants: vec![custom("C", None), custom("C", Some(2))],
                }),
            ),
            ("box".to_string(), RuleNode::Primitive { kind_name: "box".into(), class_tag: None }),
        ],
        start_items: vec![],
        recurse_depth: true,
    };
    set_rules_max_depth(&mut g, 12);
    match g.get("A") {
        Some(RuleNode::Custom(c)) => assert_eq!(c.max_depth, Some(12)),
        _ => panic!("A"),
    }
    match g.get("B") {
        Some(RuleNode::Custom(c)) => assert_eq!(c.max_depth, Some(7)),
        _ => panic!("B"),
    }
    match g.get("C") {
        Some(RuleNode::Ambiguous(a)) => {
            assert_eq!(a.variants[0].max_depth, Some(12));
            assert_eq!(a.variants[1].max_depth, Some(2));
        }
        _ => panic!("C"),
    }
    assert!(matches!(g.get("box"), Some(RuleNode::Primitive { .. })));
    assert!(g.recurse_depth);
}
