//! Failures of the document model.

use vstd::prelude::*;

verus! {

/// What can go wrong while building or editing a document: the grammar
/// could not be loaded into the parser, or the parser produced no tree
/// for the named document.
#[derive(Debug, PartialEq, Eq)]
pub enum DocumentError {
    TreeSitterParserError(String),
    TreeSitterParseError(String),
}

} // verus!
