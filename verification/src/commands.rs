//! Values exchanged with a desktop front end.

use vstd::prelude::*;

verus! {

/// A file picked by the user: its path and text.
#[derive(Debug)]
pub struct FileOpenResult {
    pub path: String,
    pub content: String,
}

} // verus!
