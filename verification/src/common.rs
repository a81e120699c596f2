//! Error values shared by the passes.

use vstd::prelude::*;

verus! {

/// What went wrong while registering or resolving a declaration.
#[derive(Debug, Clone)]
pub enum CodeErrorKind {
    /// A name was registered twice in a scope that does not allow it.
    DuplicateName(String),
}

/// A type or an expression that could not be resolved, with the syntax node
/// at which resolution failed.
#[derive(Debug, Clone)]
pub struct SyntaxError {
    pub message: String,
    pub node: usize,
}

impl CodeErrorKind {
    /// The offending name, as a sequence of characters.
    pub open spec fn name(self) -> Seq<char> {
        match self {
            CodeErrorKind::DuplicateName(n) => n@,
        }
    }

    /// The message shown to the user.
    pub fn message(&self) -> (text: String)
        ensures
            text@ == "duplicate name"@,
    {
        "duplicate name".to_owned()
    }
}

} // verus!
