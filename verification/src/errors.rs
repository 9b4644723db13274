use vstd::prelude::*;

verus! {

/// An error raised by the interpreter: either a malformed source line or a
/// failure while a syntactically valid statement runs.
#[derive(Debug)]
pub enum BasicError {
    SyntaxError(String),
    RuntimeError(String),
}

impl BasicError {
    /// The message carried by the error, whichever kind it is.
    pub open spec fn text(&self) -> Seq<char> {
        match self {
            BasicError::SyntaxError(m) => m@,
            BasicError::RuntimeError(m) => m@,
        }
    }

    /// The human-readable message carried by the error.
    pub fn message(&self) -> (r: String)
        ensures
            r@ == self.text(),
    {
        match self {
            BasicError::SyntaxError(m) => m.clone(),
            BasicError::RuntimeError(m) => m.clone(),
        }
    }
}

} // verus!
