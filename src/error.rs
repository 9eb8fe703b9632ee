//! Recoverable errors reported by the toolkit.

use vstd::prelude::*;

verus! {

/// What went wrong, with a human-readable explanation.
#[derive(Debug, Clone, PartialEq)]
pub enum GymError {
    /// An action outside the environment's domain.
    InvalidAction(String),
    /// An observation or frame whose shape is malformed.
    InvalidObservation(String),
    /// An operation attempted before the setup it needs.
    NotReady(String),
    /// An operation that this build or this input does not support.
    NotSupported(String),
    /// Any other failure.
    Other(String),
}

impl GymError {
    /// The explanation carried by the error.
    pub fn message(&self) -> (r: &String)
        ensures
            r == match self {
                GymError::InvalidAction(m) => m,
                GymError::InvalidObservation(m) => m,
                GymError::NotReady(m) => m,
                GymError::NotSupported(m) => m,
                GymError::Other(m) => m,
            },
    {
        match self {
            GymError::InvalidAction(m) => m,
            GymError::InvalidObservation(m) => m,
            GymError::NotReady(m) => m,
            GymError::NotSupported(m) => m,
            GymError::Other(m) => m,
        }
    }
}

} // verus!
