//! Alert severities, rule operators and errors.
use vstd::prelude::*;

verus! {

/// Alert errors.
#[derive(Debug, Clone, PartialEq, Eq)]
pub enum AlertError {
    RuleNotFound(String),
    EvaluationFailed(String),
    DeliveryFailed(String),
}

/// Alert severity, ordered lowest to highest.
#[derive(Debug, Clone, Copy, PartialEq, Eq, PartialOrd, Ord, Structural)]
pub enum Severity {
    Info,
    Warning,
    Critical,
}

/// Threshold comparison operators of alert rules.
#[derive(Debug, Clone, Copy, PartialEq, Eq, Structural)]
pub enum ThresholdOp {
    Gt,
    Gte,
    Lt,
    Lte,
    Eq,
}

} // verus!
