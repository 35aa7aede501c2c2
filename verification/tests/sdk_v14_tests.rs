use overdrive::client::types::StorageEngine;
use std::path::PathBuf;

fn test_dir() -> PathBuf {
    PathBuf::from("test_data_sdk_v14")
}

fn test_path(name: &str) -> String {
    test_dir().join(name).to_string_lossy().to_string()
}

#[test]
fn test_auto_create_tables_flag_default() {
    // Default should be true
    let auto_create = true;
    assert!(auto_create);
}

#[test]
fn test_ram_engine_type_enum() {
    #[derive(Debug, PartialEq)]
    enum EngineType {
        Disk,
        RAM,
        Vector,
        TimeSeries,
        Graph,
        Streaming,
    }

    let engine = EngineType::RAM;
    assert_eq!(engine, EngineType::RAM);
}

#[test]
fn test_watchdog_missing_file() {
    let path = test_path("nonexistent_watchdog.odb");
    assert!(!std::path::Path::new(&path).exists());
}

#[test]
fn test_engine_parameter_validation() {
    let valid = vec!["Disk", "RAM", "Vector", "Time-Series", "Graph", "Streaming"];
    let invalid = vec!["disk", "ram", "Memory", "SSD", ""];

    for e in &valid {
        assert!(valid.contains(e), "{} should be valid", e);
    }
    for e in &invalid {
        assert!(!valid.contains(e), "{} should be invalid", e);
    }
}

#[test]
fn test_open_options_default_creates_tables() {
    let opts = overdrive::native::OpenOptions::new();
    assert!(opts.auto_create_tables);
    assert!(opts.password.is_none());
    assert!(opts.engine.is_none());
}

#[test]
fn test_ram_engine_name() {
    assert_eq!(StorageEngine::RAM.as_str(), "RAM");
    assert_eq!(StorageEngine::Disk.as_str(), "Disk");
}

#[test]
fn engine_names_are_the_valid_parameters() {
    let valid = vec!["Disk", "RAM", "Vector", "Time-Series", "Graph", "Streaming"];
    let engines = [
        StorageEngine::Disk,
        StorageEngine::RAM,
        StorageEngine::Vector,
        StorageEngine::TimeSeries,
        StorageEngine::Graph,
        StorageEngine::Streaming,
    ];
    let names: Vec<&str> = engines.iter().map(|e| e.as_str()).collect();
    assert_eq!(names, valid);
    for e in ["disk", "ram", "Memory", "SSD", ""] {
        assert!(!names.contains(&e));
    }
}

#[test]
fn test_open_options_json_serialization() {
    let mut opts = serde_json::Map::new();
    opts.insert("auto_create_tables".to_string(), serde_json::Value::Bool(true));
    opts.insert("password".to_string(), serde_json::Value::String("test-password-123".to_string()));
    let json_str = serde_json::to_string(&serde_json::Value::Object(opts)).unwrap();
    assert!(json_str.contains("auto_create_tables"));
    assert!(json_str.contains("test-password-123"));
}

#[test]
fn open_options_native_arguments_carry_password_and_flag() {
    let (engine, opts) = overdrive::native::OpenOptions::new().password("test-password-123").into_native_arguments();
    assert_eq!(engine, "Disk");
    assert_eq!(opts.get("auto_create_tables").and_then(|v| v.as_bool()), Some(true));
    assert_eq!(opts.get("password").and_then(|v| v.as_str()), Some("test-password-123"));
}
