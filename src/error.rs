//! Errors of compilation and rendering.
use vstd::prelude::*;

verus! {

/// A directive value or a placeholder that is not a valid expression.
#[derive(Debug)]
pub struct DirectiveParseError {
    /// The text that failed to parse.
    pub text: String,
}

/// A template that cannot be compiled, with the element and attribute where it failed.
#[derive(Debug)]
pub struct CompileError {
    /// The element's name, or empty for a text node.
    pub element: String,
    /// The attribute's name, or empty for text content.
    pub attribute: String,
    pub cause: DirectiveParseError,
}

} // verus!
