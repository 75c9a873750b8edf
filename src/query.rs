//! Query severities and errors.
use vstd::prelude::*;

verus! {

/// Query errors.
#[derive(Debug, Clone, PartialEq, Eq)]
pub enum QueryError {
    InvalidQuery(String),
}

/// Health severity levels.
#[derive(Debug, Clone, Copy, PartialEq, Eq, Structural)]
pub enum Severity {
    Healthy,
    Info,
    Warning,
    Critical,
}

} // verus!
