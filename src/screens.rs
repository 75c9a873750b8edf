//! What the dashboard screens display.
use vstd::prelude::*;
use vstd::string::StringExecFns;

verus! {

/// Sections of the oracle screen.
#[derive(Debug, Clone, Copy, PartialEq, Eq, Structural)]
pub enum OracleSection {
    RateLimits,
    FailureRisk,
    CostTrajectory,
    Resources,
}

impl Default for OracleSection {
    fn default() -> (r: Self)
        ensures
            r == OracleSection::RateLimits,
    {
        OracleSection::RateLimits
    }
}

/// Alert summary for display.
#[derive(Debug, Clone)]
pub struct AlertSummary {
    pub severity: String,
    pub title: String,
    pub machine_id: Option<String>,
}

impl Default for AlertSummary {
    fn default() -> (r: Self)
        ensures
            r.severity@ == "info"@,
            r.title@.len() == 0,
            r.machine_id is None,
    {
        AlertSummary { severity: String::from_str("info"), title: String::new(), machine_id: None }
    }
}

/// Repository status for display.
#[derive(Debug, Clone)]
pub struct RepoStatus {
    pub name: String,
    pub branch: String,
    pub is_dirty: bool,
    pub ahead: u32,
    pub behind: u32,
    pub modified_count: u32,
}

impl Default for RepoStatus {
    fn default() -> (r: Self)
        ensures
            r.name@.len() == 0,
            r.branch@ == "main"@,
            !r.is_dirty,
            r.ahead == 0,
            r.behind == 0,
            r.modified_count == 0,
    {
        RepoStatus {
            name: String::new(),
            branch: String::from_str("main"),
            is_dirty: false,
            ahead: 0,
            behind: 0,
            modified_count: 0,
        }
    }
}

} // verus!
