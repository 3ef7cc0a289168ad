//! Errors of the mutation operations.

use vstd::prelude::*;

verus! {

/// Why a mutation had no effect.
#[derive(Clone, Copy, Debug, PartialEq, Eq, Structural)]
pub enum GraphError {
    /// A time string does not match the format given with it.
    ParseTime,
    /// No vertex has the identifier given.
    VertexNotFound,
    /// No edge joins the two vertices given.
    EdgeNotFound,
    /// No layer has the name given.
    InvalidLayer,
}

impl GraphError {
    /// A description of the error.
    pub fn message(&self) -> (r: String)
        ensures
            r@ == (match self {
                GraphError::ParseTime => "the time does not match the format"@,
                GraphError::VertexNotFound => "no vertex has this identifier"@,
                GraphError::EdgeNotFound => "no edge joins these vertices"@,
                GraphError::InvalidLayer => "no layer has this name"@,
            }),
    {
        match self {
            GraphError::ParseTime => "the time does not match the format".to_owned(),
            GraphError::VertexNotFound => "no vertex has this identifier".to_owned(),
            GraphError::EdgeNotFound => "no edge joins these vertices".to_owned(),
            GraphError::InvalidLayer => "no layer has this name".to_owned(),
        }
    }
}

} // verus!
