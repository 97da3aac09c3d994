//! One-based positions into a sequence.

use vstd::prelude::*;

use crate::analysis::AnalysisError;

verus! {

/// A one-based index into a sequence. A position is never zero.
#[derive(Clone, Copy, Debug, PartialEq, Eq)]
pub struct Position {
    value: usize,
}

impl View for Position {
    type V = nat;

    closed spec fn view(&self) -> nat {
        self.value as nat
    }
}

impl Position {
    #[verifier::type_invariant]
    spec fn inv(self) -> bool {
        self.value >= 1
    }

    /// Makes a position from its integer value; zero is refused with
    /// `InvalidPosition`.
    pub fn new(value: usize) -> (r: Result<Position, AnalysisError>)
        ensures
            value >= 1 <==> r is Ok,
            r is Ok ==> r->Ok_0@ == value,
            r is Err ==> r->Err_0 == AnalysisError::InvalidPosition,
    {
        if value == 0 {
            Err(AnalysisError::InvalidPosition)
        } else {
            Ok(Position { value })
        }
    }

    /// The integer value of the position, at least one.
    pub fn get(&self) -> (r: usize)
        ensures
            r == self@,
            r >= 1,
    {
        proof {
            use_type_invariant(self);
        }
        self.value
    }
}

} // verus!
