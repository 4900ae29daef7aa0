use rustsynth::diagnostics::{Diagnostic, Severity};
use rustsynth::pipeline::{diagnostic_line, run_front_end};

#[test]
fn diagnostics_are_formatted_with_level_and_line() {
    let e = Diagnostic::error(12, "Undefined rule reference: 'foo'".to_string());
    assert_eq!(diagnostic_line(&e), "[ERROR] line 12: Undefined rule reference: 'foo'");
    let w = Diagnostic { severity: Severity::Warning, line: 0, message: "odd".to_string() };
    assert_eq!(diagnostic_line(&w), "[WARN] line 0: odd");
}

#[test]
fn front_end_of_a_script() {
    let r = run_front_end("set maxdepth 10\nbox", 0);
    assert!(r.warnings.is_empty());
    assert!(r.gui_params.is_empty());
    assert_eq!(r.graph.start_items.len(), 2);
    assert_eq!(r.graph.rules.len(), 1);
    assert_eq!(r.graph.rules[0].0, "box");
}

#[test]
fn front_end_reports_every_stage() {
    let r = run_front_end("R\nrule R { foo }\n}", 0);
    assert_eq!(
        r.warnings,
        vec![
            "[ERROR] line 3: Expected a rule name".to_string(),
            "[ERROR] line 0: Undefined rule reference: 'foo'".to_string(),
        ]
    );
    assert_eq!(r.graph.start_items.len(), 1);
}
