//! Errors and responses of the web API.
use vstd::prelude::*;

verus! {

/// Web server errors.
#[derive(Debug, Clone, PartialEq, Eq)]
pub enum WebError {
    ServerError(String),
    NotFound(String),
    QueryError(String),
}

/// Shared application state.
pub struct AppState {}

/// Health check response.
#[derive(Debug, Clone)]
pub struct HealthResponse {
    pub status: String,
    pub version: String,
    pub uptime_secs: u64,
}

} // verus!
