//! Operating modes and decision kinds of the autopilot.
use vstd::prelude::*;
use vstd::string::StringExecFns;
use crate::text::{lower_of, str_eq, to_lower, trim, trimmed_of};

verus! {

/// Autopilot operating mode.
#[derive(Debug, Clone, Copy, PartialEq, Eq, Structural)]
pub enum AutopilotMode {
    /// Autopilot is disabled
    Off,
    /// Autopilot suggests actions but does not execute them
    Suggest,
    /// Autopilot executes safe, non-destructive actions automatically
    Execute,
}

/// The mode that a normalized (trimmed, lowercase) name stands for.
pub open spec fn mode_named(s: Seq<char>) -> Option<AutopilotMode> {
    if s == "off"@ {
        Some(AutopilotMode::Off)
    } else if s == "suggest"@ {
        Some(AutopilotMode::Suggest)
    } else if s == "execute"@ {
        Some(AutopilotMode::Execute)
    } else {
        None
    }
}

/// The normal form of a name as the parsers compare it: trimmed, then lowercased.
pub open spec fn normalized(s: Seq<char>) -> Seq<char> {
    lower_of(trimmed_of(s))
}

impl AutopilotMode {
    pub fn as_str(&self) -> (r: &'static str)
        ensures
            r@ == match *self {
                AutopilotMode::Off => "off"@,
                AutopilotMode::Suggest => "suggest"@,
                AutopilotMode::Execute => "execute"@,
            },
    {
        match self {
            AutopilotMode::Off => "off",
            AutopilotMode::Suggest => "suggest",
            AutopilotMode::Execute => "execute",
        }
    }

    pub fn is_active(&self) -> (r: bool)
        ensures
            r == !(*self is Off),
    {
        !matches!(self, AutopilotMode::Off)
    }

    pub fn can_execute(&self) -> (r: bool)
        ensures
            r == (*self is Execute),
    {
        matches!(self, AutopilotMode::Execute)
    }

    /// The mode named by an already normalized name; the error names it.
    pub fn from_normalized(s: &str) -> (r: Result<AutopilotMode, String>)
        ensures
            match mode_named(s@) {
                Some(m) => r == Ok::<AutopilotMode, String>(m),
                None => r matches Err(e) && e@ == "unknown autopilot mode: "@ + s@,
            },
    {
        if str_eq(s, "off") {
            Ok(AutopilotMode::Off)
        } else if str_eq(s, "suggest") {
            Ok(AutopilotMode::Suggest)
        } else if str_eq(s, "execute") {
            Ok(AutopilotMode::Execute)
        } else {
            Err(String::from_str("unknown autopilot mode: ").concat(s))
        }
    }

    /// Parses a mode name, ignoring surrounding whitespace and case.
    pub fn parse_name(s: &str) -> (r: Result<AutopilotMode, String>)
        ensures
            match mode_named(normalized(s@)) {
                Some(m) => r == Ok::<AutopilotMode, String>(m),
                None => r matches Err(e) && e@ == "unknown autopilot mode: "@ + normalized(s@),
            },
    {
        let lowered = to_lower(trim(s));
        AutopilotMode::from_normalized(lowered.as_str())
    }
}

impl std::str::FromStr for AutopilotMode {
    type Err = String;

    fn from_str(s: &str) -> Result<Self, Self::Err> {
        AutopilotMode::parse_name(s)
    }
}

/// Kind of autopilot decision.
#[derive(Debug, Clone, Copy, PartialEq, Eq, Structural)]
pub enum DecisionType {
    /// Switch to a different API account
    AccountSwitch,
    /// Balance workload across machines
    WorkloadBalance,
    /// Cost optimization recommendation
    CostOptimization,
    /// Trigger a guardian playbook
    PlaybookTrigger,
}

/// The decision kind that a normalized name stands for.
pub open spec fn decision_named(s: Seq<char>) -> Option<DecisionType> {
    if s == "account_switch"@ {
        Some(DecisionType::AccountSwitch)
    } else if s == "workload_balance"@ {
        Some(DecisionType::WorkloadBalance)
    } else if s == "cost_optimization"@ {
        Some(DecisionType::CostOptimization)
    } else if s == "playbook_trigger"@ {
        Some(DecisionType::PlaybookTrigger)
    } else {
        None
    }
}

impl DecisionType {
    pub fn as_str(&self) -> (r: &'static str)
        ensures
            r@ == match *self {
                DecisionType::AccountSwitch => "account_switch"@,
                DecisionType::WorkloadBalance => "workload_balance"@,
                DecisionType::CostOptimization => "cost_optimization"@,
                DecisionType::PlaybookTrigger => "playbook_trigger"@,
            },
    {
        match self {
            DecisionType::AccountSwitch => "account_switch",
            DecisionType::WorkloadBalance => "workload_balance",
            DecisionType::CostOptimization => "cost_optimization",
            DecisionType::PlaybookTrigger => "playbook_trigger",
        }
    }

    /// The decision kind named by an already normalized name; the error names it.
    pub fn from_normalized(s: &str) -> (r: Result<DecisionType, String>)
        ensures
            match decision_named(s@) {
                Some(d) => r == Ok::<DecisionType, String>(d),
                None => r matches Err(e) && e@ == "unknown decision type: "@ + s@,
            },
    {
        if str_eq(s, "account_switch") {
            Ok(DecisionType::AccountSwitch)
        } else if str_eq(s, "workload_balance") {
            Ok(DecisionType::WorkloadBalance)
        } else if str_eq(s, "cost_optimization") {
            Ok(DecisionType::CostOptimization)
        } else if str_eq(s, "playbook_trigger") {
            Ok(DecisionType::PlaybookTrigger)
        } else {
            Err(String::from_str("unknown decision type: ").concat(s))
        }
    }

    /// Parses a decision kind, ignoring surrounding whitespace and case.
    pub fn parse_name(s: &str) -> (r: Result<DecisionType, String>)
        ensures
            match decision_named(normalized(s@)) {
                Some(d) => r == Ok::<DecisionType, String>(d),
                None => r matches Err(e) && e@ == "unknown decision type: "@ + normalized(s@),
            },
    {
        let lowered = to_lower(trim(s));
        DecisionType::from_normalized(lowered.as_str())
    }
}

impl std::str::FromStr for DecisionType {
    type Err = String;

    fn from_str(s: &str) -> Result<Self, Self::Err> {
        DecisionType::parse_name(s)
    }
}

/// Kinds of workload balance action.
#[derive(Debug, Clone, PartialEq, Eq)]
pub enum BalanceActionType {
    ScaleDown,
    ScaleUp,
    Migrate { to_machine: String },
}

/// A workload balance action on one machine.
#[derive(Debug, Clone)]
pub struct BalanceAction {
    pub machine_id: String,
    pub action: BalanceActionType,
    pub reason: String,
}

/// Autopilot status snapshot.
#[derive(Debug, Clone)]
pub struct AutopilotStatus {
    pub mode: AutopilotMode,
    pub decisions_today: u64,
    pub last_decision_at: Option<String>,
    pub account_switches: u64,
    pub cost_alerts: u64,
}

} // verus!
