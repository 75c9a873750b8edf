use vibe_cockpit::schema::{robot_docs_schemas, SchemaIndex, SchemaRegistry};

#[test]
fn test_schema_index_default() {
    let index = SchemaIndex::default();
    assert_eq!(index.version, "1.0.0");
    assert!(!index.schemas.is_empty());
}

#[test]
fn test_schema_registry_list() {
    let registry = SchemaRegistry::new("/tmp");
    let schemas = registry.list_schemas();
    assert!(schemas.contains(&"vc.robot.health.v1"));
    assert!(schemas.contains(&"vc.robot.status.v1"));
    assert!(schemas.contains(&"vc.robot.triage.v1"));
}

#[test]
fn test_find_entry() {
    let registry = SchemaRegistry::new("/tmp");
    let entry = registry.find_entry("vc.robot.health.v1");
    assert!(entry.is_some());
    assert_eq!(entry.unwrap().command, "vc robot health");
}

#[test]
fn test_robot_docs_schemas() {
    let output = robot_docs_schemas("/tmp/project");
    assert_eq!(output.version, "1.0.0");
    assert!(!output.schemas.is_empty());
    assert_eq!(output.schemas_dir, "/tmp/project/docs/schemas");
}

#[test]
fn registry_holds_added_schemas() {
    let mut registry = SchemaRegistry::new("/tmp/");
    assert_eq!(registry.schemas_dir(), "/tmp/docs/schemas");
    assert!(registry.get_schema("vc.robot.health.v1").is_none());
    registry.add_schema("vc.robot.health.v1".to_string(), "{}".to_string());
    registry.add_schema("vc.robot.health.v1".to_string(), "{\"a\":1}".to_string());
    assert_eq!(registry.get_schema("vc.robot.health.v1"), Some("{\"a\":1}"));
    assert_eq!(registry.get_schema_for_version("vc.robot.health.v1"), Some("{\"a\":1}"));
    assert!(registry.get_schema("vc.robot.status.v1").is_none());
    assert_eq!(registry.index().schemas.len(), 4);
}

#[test]
fn registry_lists_the_full_default_index() {
    let registry = SchemaRegistry::new("/tmp");
    assert_eq!(
        registry.list_schemas(),
        vec!["robot-envelope", "vc.robot.health.v1", "vc.robot.status.v1", "vc.robot.triage.v1"]
    );
    let docs = robot_docs_schemas("/tmp/project");
    let ids: Vec<&str> = docs.schemas.iter().map(|e| e.id.as_str()).collect();
    assert_eq!(ids, registry.list_schemas());
    assert_eq!(registry.find_entry("robot-envelope").unwrap().command, "(base schema)");
}
