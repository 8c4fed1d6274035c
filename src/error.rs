use vstd::prelude::*;

verus! {

/// Why compiling a scoped style failed.
#[derive(Debug, Clone)]
pub enum CompileError {
    /// An open marker `[[` has no `]]` after it.
    UnclosedPlaceholder,
    /// The number of resolved values differs from the number of placeholders.
    UnresolvedPlaceholder,
    /// The CSS engine rejected the scoped content; carries its diagnostic.
    CssSyntaxError(String),
    /// The CSS engine failed while printing the stylesheet; carries its diagnostic.
    CssPrintError(String),
}

impl CompileError {
    /// A human-readable description of the failure.
    pub fn message(&self) -> (r: String)
        ensures
            self is CssSyntaxError ==> r@ == self->CssSyntaxError_0@,
            self is CssPrintError ==> r@ == self->CssPrintError_0@,
            self is UnclosedPlaceholder || self is UnresolvedPlaceholder ==> r@.len() > 0,
    {
        match self {
            CompileError::UnclosedPlaceholder => {
                proof {
                    reveal_strlit("unclosed [[ ]] placeholder");
                }
                String::from_str("unclosed [[ ]] placeholder")
            },
            CompileError::UnresolvedPlaceholder => {
                proof {
                    reveal_strlit("number of resolved values does not match the placeholders");
                }
                String::from_str("number of resolved values does not match the placeholders")
            },
            CompileError::CssSyntaxError(m) => m.clone(),
            CompileError::CssPrintError(m) => m.clone(),
        }
    }
}

} // verus!
