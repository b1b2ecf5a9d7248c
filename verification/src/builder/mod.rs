//! Construction of watched plugin calls, and the error a construction gives.
pub mod thread_observer;

use vstd::prelude::*;

verus! {

/// What went wrong while constructing a value.
#[derive(Debug, Clone, Copy, PartialEq, Eq, Structural)]
pub enum BuilderErrorKind {
    NoError,
    InvalidParameter,
}

/// Error of a builder whose parameters do not suffice.
#[derive(Debug)]
pub struct BuilderError {
    kind: BuilderErrorKind,
}

impl View for BuilderError {
    type V = BuilderErrorKind;

    closed spec fn view(&self) -> BuilderErrorKind {
        self.kind
    }
}

impl BuilderError {
    /// An error that reports nothing wrong.
    pub fn new() -> (r: Self)
        ensures
            r@ == BuilderErrorKind::NoError,
    {
        BuilderError { kind: BuilderErrorKind::NoError }
    }

    /// The error of a builder whose parameters break its requirements.
    pub fn invalid_parameter() -> (r: Self)
        ensures
            r@ == BuilderErrorKind::InvalidParameter,
    {
        BuilderError { kind: BuilderErrorKind::InvalidParameter }
    }

    pub fn kind(&self) -> (r: BuilderErrorKind)
        ensures
            r == self@,
    {
        self.kind
    }

    /// The sentence that describes the error to a reader.
    pub fn message(&self) -> (r: &'static str)
        ensures
            r@ == (match self@ {
                BuilderErrorKind::NoError => "No error"@,
                BuilderErrorKind::InvalidParameter =>
                    "It may not satisfy the parameter requirement required for constructing the structure."@,
            }),
    {
        match self.kind {
            BuilderErrorKind::NoError => "No error",
            BuilderErrorKind::InvalidParameter =>
                "It may not satisfy the parameter requirement required for constructing the structure.",
        }
    }

    /// A short name of the error.
    pub fn description(&self) -> (r: &'static str)
        ensures
            r@ == (match self@ {
                BuilderErrorKind::NoError => "No error"@,
                BuilderErrorKind::InvalidParameter => "Invalid parameter"@,
            }),
    {
        match self.kind {
            BuilderErrorKind::NoError => "No error",
            BuilderErrorKind::InvalidParameter => "Invalid parameter",
        }
    }
}

} // verus!
