//! Diagnostics reported by the front end and the semantic passes.

use vstd::prelude::*;

verus! {

/// How serious a diagnostic is.
#[derive(Debug, Clone, Copy, PartialEq, Eq, Structural)]
pub enum Severity {
    Error,
    Warning,
}

/// A message attached to a source line.
#[derive(Debug)]
pub struct Diagnostic {
    pub severity: Severity,
    pub line: u32,
    pub message: String,
}

/// The value of a diagnostic: its severity, line and message text.
pub struct DiagnosticV {
    pub severity: Severity,
    pub line: u32,
    pub message: Seq<char>,
}

impl View for Diagnostic {
    type V = DiagnosticV;

    open spec fn view(&self) -> DiagnosticV {
        DiagnosticV { severity: self.severity, line: self.line, message: self.message@ }
    }
}

/// The value of an error diagnostic with the given line and message.
pub open spec fn error_view(line: u32, message: Seq<char>) -> DiagnosticV {
    DiagnosticV { severity: Severity::Error, line, message }
}

impl Diagnostic {
    /// An error diagnostic.
    pub fn error(line: u32, message: String) -> (d: Diagnostic)
        ensures
            d@ == error_view(line, message@),
    {
        Diagnostic { severity: Severity::Error, line, message }
    }
}

} // verus!
