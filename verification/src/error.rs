//! The ways in which configuring, fitting or reading a model can fail.

use vstd::prelude::*;

verus! {

/// Why a model refused an input.
#[derive(Clone, Copy, Debug, PartialEq, Eq, Structural)]
pub enum PropagationError {
    /// The weight matrix is not square, or holds a weight that is not
    /// non-negative.
    InvalidGraph,
    /// The label seed names no label, so the number of classes is undefined.
    EmptyLabelSet,
    /// A prediction was asked of a model that has not been fitted.
    NotFitted,
    /// A node or label index lies outside the bounds it is used in.
    IndexOutOfRange,
}

impl PropagationError {
    /// A short description of the failure, for messages.
    pub fn message(&self) -> (text: &'static str)
        ensures
            text@ == match *self {
                PropagationError::InvalidGraph => "graph must be square with non-negative weights"@,
                PropagationError::EmptyLabelSet => "label seed holds no label"@,
                PropagationError::NotFitted => "model has not been fitted"@,
                PropagationError::IndexOutOfRange => "index out of range"@,
            },
    {
        match self {
            PropagationError::InvalidGraph => "graph must be square with non-negative weights",
            PropagationError::EmptyLabelSet => "label seed holds no label",
            PropagationError::NotFitted => "model has not been fitted",
            PropagationError::IndexOutOfRange => "index out of range",
        }
    }
}

} // verus!
