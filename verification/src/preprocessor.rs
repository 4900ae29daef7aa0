//! EisenScript preprocessor.
//!
//! The preprocessor is the place for `#define name value` substitutions,
//! `#define name value (float:lo-hi)` / `(int:lo-hi)` GUI parameters and
//! `random[lo,hi]` replacement; at present it passes the source through
//! unchanged and extracts no parameters.

use vstd::prelude::*;

use crate::diagnostics::Diagnostic;

verus! {

/// A GUI-controllable parameter extracted from preprocessor directives.
/// Float values are held as the bit patterns of `f64`s (`f64::to_bits`).
#[derive(Debug)]
#[allow(inconsistent_fields)]
pub enum GuiParam {
    Float { name: String, default: u64, min: u64, max: u64 },
    Int { name: String, default: i64, min: i64, max: i64 },
}

/// Result of preprocessing.
pub struct PreprocessResult {
    pub output: String,
    pub gui_params: Vec<GuiParam>,
    pub diagnostics: Vec<Diagnostic>,
}

/// Preprocess EisenScript source text.
///
/// `seed` is used for `random[lo,hi]` substitutions.
pub fn preprocess(source: &str, seed: u64) -> (r: PreprocessResult)
    ensures
        r.output@ == source@,
        r.gui_params@.len() == 0,
        r.diagnostics@.len() == 0,
{
    PreprocessResult { output: String::from_str(source), gui_params: Vec::new(), diagnostics: Vec::new() }
}

} // verus!
