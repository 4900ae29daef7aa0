//! Shared error types for RustSynth.

use vstd::prelude::*;

verus! {

/// `std::io::Error`, carried as an opaque value.
#[verifier::external_type_specification]
#[verifier::external_body]
pub struct ExIoError(std::io::Error);

/// Top-level error type shared across the library.
#[derive(Debug)]
pub enum Error {
    Parse(String),
    Eval(String),
    Export(String),
    Io(std::io::Error),
    Other(String),
}

} // verus!
