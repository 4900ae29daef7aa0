//! The front half of the compilation pipeline: preprocessing, parsing,
//! resolution and validation, with every stage's diagnostics collected as
//! `[ERROR] line N: message` / `[WARN] line N: message` strings. Evaluation
//! of the resulting graph follows.

use vstd::prelude::*;

use crate::diagnostics::{Diagnostic, DiagnosticV, Severity};
use crate::obj_format::{decimal_text, push_decimal};
use crate::parser::{parse, parse_source};
use crate::preprocessor::{preprocess, GuiParam};
use crate::resolution::{
    class_diagnostics, diagnostics_view, is_referenced, resolve, resolve_statements, resolved_rules,
};
use crate::rule_graph::RuleGraph;
use crate::validation::{validate, validation_report};

verus! {

/// The text of one diagnostic.
pub open spec fn diagnostic_text(d: DiagnosticV) -> Seq<char> {
    (if d.severity == Severity::Error {
        "[ERROR]"@
    } else {
        "[WARN]"@
    }) + " line "@ + decimal_text(d.line as nat) + ": "@ + d.message
}

/// Format a diagnostic as `[ERROR] line N: message` or `[WARN] line N: message`.
pub fn diagnostic_line(d: &Diagnostic) -> (s: String)
    ensures
        s@ == diagnostic_text(d@),
{
    let mut s = String::new();
    match d.severity {
        Severity::Error => s.append("[ERROR]"),
        Severity::Warning => s.append("[WARN]"),
    }
    s.append(" line ");
    push_decimal(&mut s, d.line as usize);
    s.append(": ");
    s.append(d.message.as_str());
    s
}

/// The texts of a list of diagnostics.
pub open spec fn diagnostic_texts(ds: Seq<DiagnosticV>) -> Seq<Seq<char>> {
    ds.map_values(|d: DiagnosticV| diagnostic_text(d))
}

fn push_diagnostic_lines(out: &mut Vec<String>, ds: &Vec<Diagnostic>)
    ensures
        final(out)@.map_values(|s: String| s@) == old(out)@.map_values(|s: String| s@)
            + diagnostic_texts(diagnostics_view(ds@)),
{
    let ghost before = out@.map_values(|s: String| s@);
    for i in 0..ds.len()
        invariant
            out@.map_values(|s: String| s@) == before + diagnostic_texts(
                diagnostics_view(ds@.take(i as int)),
            ),
    {
        let line = diagnostic_line(&ds[i]);
        let ghost prev = out@;
        out.push(line);
        assert(out@.map_values(|s: String| s@) =~= prev.map_values(|s: String| s@).push(line@));
        assert(diagnostics_view(ds@.take(i + 1)) =~= diagnostics_view(ds@.take(i as int)).push(
            ds@[i as int]@,
        ));
        assert(diagnostic_texts(diagnostics_view(ds@.take(i + 1))) =~= diagnostic_texts(
            diagnostics_view(ds@.take(i as int)),
        ).push(diagnostic_text(ds@[i as int]@)));
        assert(out@.map_values(|s: String| s@) =~= before + diagnostic_texts(
            diagnostics_view(ds@.take(i + 1)),
        ));
    }
    assert(ds@.take(ds@.len() as int) =~= ds@);
}

/// What the front half of the pipeline produces.
pub struct FrontEnd {
    /// The resolved rule graph, ready for evaluation.
    pub graph: RuleGraph,
    /// Every stage's diagnostics, as text, stage by stage.
    pub warnings: Vec<String>,
    /// The GUI parameters of the script's `#define` directives.
    pub gui_params: Vec<GuiParam>,
}

/// Preprocess, parse, resolve and validate `source`, collecting the
/// diagnostics of every stage in order: the parse's, then the resolution's,
/// then the validation's of the resolved graph.
pub fn run_front_end(source: &str, seed: u64) -> (r: FrontEnd)
    ensures
        r.graph.wf(),
        r.graph@.rules == resolved_rules(resolve_statements(parse_source(source@).0)),
        r.graph@.start_items == resolve_statements(parse_source(source@).0).start_items,
        r.graph@.recurse_depth == resolve_statements(parse_source(source@).0).recurse_depth,
        exists|refs: Seq<Seq<char>>|
            {
                &&& refs.no_duplicates()
                &&& forall|t: Seq<char>| #[trigger]
                    refs.contains(t) <==> is_referenced(
                        resolve_statements(parse_source(source@).0),
                        t,
                    )
                &&& r.warnings@.map_values(|w: String| w@) == diagnostic_texts(
                    parse_source(source@).1,
                ) + diagnostic_texts(
                    resolve_statements(parse_source(source@).0).diagnostics + #[trigger] class_diagnostics(
                        refs,
                        resolve_statements(parse_source(source@).0).rules,
                    ),
                ) + diagnostic_texts(validation_report(r.graph))
            },
        r.gui_params@.len() == 0,
{
    let mut warnings: Vec<String> = Vec::new();
    let pre = preprocess(source, seed);
    let gui_params = pre.gui_params;
    push_diagnostic_lines(&mut warnings, &pre.diagnostics);
    assert(diagnostics_view(pre.diagnostics@) =~= Seq::<DiagnosticV>::empty());
    let parsed = parse(pre.output.as_str());
    push_diagnostic_lines(&mut warnings, &parsed.diagnostics);
    let (graph, resolve_diags) = resolve(&parsed.script);
    push_diagnostic_lines(&mut warnings, &resolve_diags);
    let val_diags = validate(&graph);
    push_diagnostic_lines(&mut warnings, &val_diags);
    proof {
        let st = resolve_statements(parse_source(source@).0);
        let refs = choose|refs: Seq<Seq<char>>|
            {
                &&& refs.no_duplicates()
                &&& forall|t: Seq<char>| #[trigger] refs.contains(t) <==> is_referenced(st, t)
                &&& diagnostics_view(resolve_diags@) == st.diagnostics + class_diagnostics(
                    refs,
                    st.rules,
                )
            };
        assert(diagnostic_texts(Seq::<DiagnosticV>::empty()) =~= Seq::<Seq<char>>::empty());
        assert(warnings@.map_values(|w: String| w@) =~= diagnostic_texts(parse_source(source@).1)
            + diagnostic_texts(st.diagnostics + class_diagnostics(refs, st.rules))
            + diagnostic_texts(validation_report(graph)));
    }
    FrontEnd { graph, warnings, gui_params }
}

} // verus!
