//! Why a document was refused: its bytes, or its schema string.
use vstd::prelude::*;

use vstd::string::StringExecFns;

use crate::bounded::{parse_error_text, ParseError};
use crate::text::{debug_quoted, debug_text, join3};

verus! {

/// Why a document was refused (refusal category `parse`).
#[derive(Debug, Clone, PartialEq, Eq)]
pub enum DocumentError {
    Parse(ParseError),
    /// The document's schema string, cut to 80 characters, where `expected`
    /// is required.
    Schema { expected: &'static str, found: String },
}


/// What a refused document is told.
pub open spec fn document_error_text(e: DocumentError) -> Seq<char> {
    match e {
        DocumentError::Parse(p) => parse_error_text(p),
        DocumentError::Schema { expected, found } => "schema "@ + debug_text(found@) + " where "@
            + debug_text(expected@) + " is required"@,
    }
}

impl DocumentError {
    /// The refusal as text.
    pub fn message(&self) -> (r: String)
        ensures
            r@ == document_error_text(*self),
    {
        match self {
            DocumentError::Parse(p) => p.message(),
            DocumentError::Schema { expected, found } => {
                let mut m = join3("schema ", debug_quoted(found.as_str()).as_str(), " where ");
                m.append(debug_quoted(expected).as_str());
                m.append(" is required");
                m
            },
        }
    }
}

} // verus!
