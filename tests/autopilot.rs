use vibe_cockpit::autopilot::{AutopilotMode, DecisionType};

#[test]
fn test_mode_as_str() {
    assert_eq!(AutopilotMode::Off.as_str(), "off");
    assert_eq!(AutopilotMode::Suggest.as_str(), "suggest");
    assert_eq!(AutopilotMode::Execute.as_str(), "execute");
}

#[test]
fn test_mode_is_active() {
    assert!(!AutopilotMode::Off.is_active());
    assert!(AutopilotMode::Suggest.is_active());
    assert!(AutopilotMode::Execute.is_active());
}

#[test]
fn test_mode_can_execute() {
    assert!(!AutopilotMode::Off.can_execute());
    assert!(!AutopilotMode::Suggest.can_execute());
    assert!(AutopilotMode::Execute.can_execute());
}

#[test]
fn test_mode_parse() {
    assert_eq!("off".parse::<AutopilotMode>().unwrap(), AutopilotMode::Off);
    assert_eq!("suggest".parse::<AutopilotMode>().unwrap(), AutopilotMode::Suggest);
    assert_eq!("execute".parse::<AutopilotMode>().unwrap(), AutopilotMode::Execute);
    assert_eq!("EXECUTE".parse::<AutopilotMode>().unwrap(), AutopilotMode::Execute);
    assert!("invalid".parse::<AutopilotMode>().is_err());
}

#[test]
fn mode_parse_trims_and_names_the_unknown_mode() {
    assert_eq!("  Suggest \n".parse::<AutopilotMode>().unwrap(), AutopilotMode::Suggest);
    assert_eq!(
        AutopilotMode::parse_name(" Bogus "),
        Err("unknown autopilot mode: bogus".to_string())
    );
}

#[test]
fn test_mode_display() {
    assert_eq!(AutopilotMode::Off.as_str(), "off");
    assert_eq!(AutopilotMode::Suggest.as_str(), "suggest");
    assert_eq!(AutopilotMode::Execute.as_str(), "execute");
}

#[test]
fn test_decision_type_as_str() {
    assert_eq!(DecisionType::AccountSwitch.as_str(), "account_switch");
    assert_eq!(DecisionType::WorkloadBalance.as_str(), "workload_balance");
    assert_eq!(DecisionType::CostOptimization.as_str(), "cost_optimization");
    assert_eq!(DecisionType::PlaybookTrigger.as_str(), "playbook_trigger");
}

#[test]
fn test_decision_type_parse() {
    assert_eq!(
        "account_switch".parse::<DecisionType>().unwrap(),
        DecisionType::AccountSwitch
    );
    assert_eq!(
        "workload_balance".parse::<DecisionType>().unwrap(),
        DecisionType::WorkloadBalance
    );
    assert!("invalid".parse::<DecisionType>().is_err());
}

#[test]
fn decision_type_unknown_is_named() {
    assert_eq!(
        DecisionType::parse_name("Nope"),
        Err("unknown decision type: nope".to_string())
    );
}
