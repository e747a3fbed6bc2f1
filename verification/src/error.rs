//! The failures that the simulation reports to its callers.
use vstd::prelude::*;

verus! {

/// Why a request to the simulation was turned down.
#[derive(Clone, Copy, Debug, PartialEq, Eq, Structural)]
pub enum SimError {
    /// A body was offered whose mass or radius is not positive.
    InvalidBodyParameters,
    /// A handle was used that names no live body: the body was merged away or
    /// deleted.
    StaleHandle,
    /// Every handle has been given out; no further body can be named.
    HandlesExhausted,
}

impl SimError {
    /// The text that describes this error.
    pub open spec fn spec_message(self) -> Seq<char> {
        match self {
            SimError::InvalidBodyParameters => "mass and radius must be positive"@,
            SimError::StaleHandle => "no body has this handle"@,
            SimError::HandlesExhausted => "no handle is left"@,
        }
    }

    /// A short description of the error, for display.
    pub fn message(&self) -> (s: String)
        ensures
            s@ == self.spec_message(),
    {
        match self {
            SimError::InvalidBodyParameters => "mass and radius must be positive".to_owned(),
            SimError::StaleHandle => "no body has this handle".to_owned(),
            SimError::HandlesExhausted => "no handle is left".to_owned(),
        }
    }
}

} // verus!
