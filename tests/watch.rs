use vibe_cockpit::watch::{WatchEventType, WatchFilter, WatchSeverity};

#[test]
fn test_watch_severity_ordering() {
    assert!(WatchSeverity::Low < WatchSeverity::Medium);
    assert!(WatchSeverity::Medium < WatchSeverity::High);
    assert!(WatchSeverity::High < WatchSeverity::Critical);
}

#[test]
fn test_watch_severity_from_str() {
    assert_eq!(WatchSeverity::from_str_loose("low"), Some(WatchSeverity::Low));
    assert_eq!(WatchSeverity::from_str_loose("HIGH"), Some(WatchSeverity::High));
    assert_eq!(WatchSeverity::from_str_loose("crit"), Some(WatchSeverity::Critical));
    assert_eq!(WatchSeverity::from_str_loose("med"), Some(WatchSeverity::Medium));
    assert_eq!(WatchSeverity::from_str_loose("bogus"), None);
}

#[test]
fn test_watch_event_type_from_str() {
    assert_eq!(WatchEventType::from_str_loose("alert"), Some(WatchEventType::Alert));
    assert_eq!(WatchEventType::from_str_loose("health_change"), Some(WatchEventType::HealthChange));
    assert_eq!(WatchEventType::from_str_loose("health"), Some(WatchEventType::HealthChange));
    assert_eq!(WatchEventType::from_str_loose("collector"), Some(WatchEventType::CollectorStatus));
    assert_eq!(WatchEventType::from_str_loose("nope"), None);
}

#[test]
fn test_parse_event_types() {
    let input = vec!["alert".to_string(), "health".to_string(), "bogus".to_string()];
    let result = WatchFilter::parse_event_types(&input).unwrap();
    assert!(result.contains(&WatchEventType::Alert));
    assert!(result.contains(&WatchEventType::HealthChange));
    assert_eq!(result.len(), 2);
}

#[test]
fn parse_event_types_drops_repeats() {
    let input = vec!["alert".to_string(), "ALERT".to_string(), "heartbeat".to_string()];
    let result = WatchFilter::parse_event_types(&input).unwrap();
    assert_eq!(result, vec![WatchEventType::Alert, WatchEventType::Heartbeat]);
}

#[test]
fn test_parse_event_types_empty() {
    let input = vec!["bogus".to_string()];
    assert!(WatchFilter::parse_event_types(&input).is_none());
}

#[test]
fn test_parse_machines() {
    let input = vec!["Orko".to_string(), "SydneyMC".to_string()];
    let result = WatchFilter::parse_machines(&input).unwrap();
    assert!(result.contains(&"orko".to_string()));
    assert!(result.contains(&"sydneymc".to_string()));
}

#[test]
fn parse_machines_lowercases_and_drops_repeats() {
    let input = vec!["Orko".to_string(), "orko".to_string()];
    assert_eq!(WatchFilter::parse_machines(&input), Some(vec!["orko".to_string()]));
    assert_eq!(WatchFilter::parse_machines(&[]), None);
}

fn filter(types: Option<Vec<WatchEventType>>, machines: Option<Vec<&str>>, min: Option<WatchSeverity>) -> WatchFilter {
    WatchFilter {
        event_types: types,
        machines: machines.map(|v| v.into_iter().map(|m| m.to_string()).collect()),
        min_severity: min,
    }
}

#[test]
fn test_filter_event_type() {
    let f = filter(Some(vec![WatchEventType::Alert]), None, None);
    assert!(f.matches(WatchEventType::Alert, Some("orko"), Some(WatchSeverity::High)));
    assert!(!f.matches(WatchEventType::Prediction, Some("orko"), None));
}

#[test]
fn test_filter_machine() {
    let f = filter(None, Some(vec!["orko"]), None);
    assert!(f.matches(WatchEventType::Alert, Some("Orko"), None));
    assert!(!f.matches(WatchEventType::Alert, Some("sydneymc"), None));
    assert!(f.matches(WatchEventType::Alert, None, None));
}

#[test]
fn test_filter_severity() {
    let f = filter(None, None, Some(WatchSeverity::High));
    assert!(f.matches(WatchEventType::Alert, None, Some(WatchSeverity::Critical)));
    assert!(f.matches(WatchEventType::Alert, None, Some(WatchSeverity::High)));
    assert!(!f.matches(WatchEventType::Alert, None, Some(WatchSeverity::Medium)));
    assert!(f.matches(WatchEventType::Alert, None, None));
}

#[test]
fn test_heartbeat_always_passes_filter() {
    let f = filter(Some(vec![WatchEventType::Alert]), Some(vec!["orko"]), Some(WatchSeverity::Critical));
    assert!(f.matches(WatchEventType::Heartbeat, Some("elsewhere"), Some(WatchSeverity::Low)));
}

#[test]
fn test_combined_filter() {
    let f = filter(
        Some(vec![WatchEventType::Alert, WatchEventType::HealthChange]),
        Some(vec!["orko"]),
        Some(WatchSeverity::Medium),
    );
    assert!(f.matches(WatchEventType::Alert, Some("orko"), Some(WatchSeverity::High)));
    assert!(!f.matches(WatchEventType::Alert, Some("other"), Some(WatchSeverity::High)));
    assert!(!f.matches(WatchEventType::Alert, Some("orko"), Some(WatchSeverity::Low)));
    assert!(!f.matches(WatchEventType::Opportunity, Some("orko"), Some(WatchSeverity::High)));
}
