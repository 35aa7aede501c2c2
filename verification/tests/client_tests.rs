use overdrive::client::loader::{bundled_location, first_present};
use overdrive::client::errors::{ErrorCategory, NulByteError, OverDriveError};
use overdrive::client::types::{IndexType, IsolationLevel, QueryResult, StorageEngine, TransactionOptions, VectorMetric};
use overdrive::client::version;
use overdrive::json::{JsonNumber, JsonValue};

#[test]
fn client_version() {
    assert_eq!(version(), "2.0.0");
}

#[test]
fn error_constructors_and_categories() {
    let cases: Vec<(OverDriveError, ErrorCategory, &str)> = vec![
        (OverDriveError::database("d"), ErrorCategory::Database, "Database error: d"),
        (OverDriveError::query("q".to_string()), ErrorCategory::Query, "Query error: q"),
        (OverDriveError::transaction("t"), ErrorCategory::Transaction, "Transaction error: t"),
        (OverDriveError::auth("a"), ErrorCategory::Authentication, "Authentication error: a"),
        (OverDriveError::table("t"), ErrorCategory::Table, "Table error: t"),
        (OverDriveError::io("i"), ErrorCategory::Io, "I/O error: i"),
        (OverDriveError::library("l"), ErrorCategory::Library, "Library error: l"),
        (OverDriveError::invalid_parameter("p"), ErrorCategory::Parameter, "Invalid parameter: p"),
        (OverDriveError::connection("c"), ErrorCategory::Connection, "Connection error: c"),
        (OverDriveError::timeout("t"), ErrorCategory::Timeout, "Operation timed out: t"),
        (OverDriveError::constraint("c"), ErrorCategory::Constraint, "Constraint violation: c"),
        (OverDriveError::index("i"), ErrorCategory::Index, "Index error: i"),
        (OverDriveError::encryption("e"), ErrorCategory::Encryption, "Encryption error: e"),
        (OverDriveError::version("v"), ErrorCategory::Version, "Version mismatch: v"),
        (OverDriveError::other("o"), ErrorCategory::Other, "Error: o"),
    ];
    for (e, c, m) in cases {
        assert_eq!(e.category(), c);
        assert_eq!(e.message(), m);
    }
}

#[test]
fn recoverable_and_temporary() {
    assert!(OverDriveError::timeout("x").is_recoverable());
    assert!(OverDriveError::timeout("x").is_temporary());
    assert!(OverDriveError::connection("x").is_recoverable());
    assert!(OverDriveError::connection("x").is_temporary());
    assert!(OverDriveError::transaction("x").is_recoverable());
    assert!(!OverDriveError::transaction("x").is_temporary());
    assert!(OverDriveError::constraint("x").is_recoverable());
    assert!(!OverDriveError::constraint("x").is_temporary());
    assert!(!OverDriveError::database("x").is_recoverable());
    assert!(!OverDriveError::auth("x").is_temporary());
}

#[test]
fn string_error_message_and_category() {
    let e = OverDriveError::from(NulByteError { nul_position: 3, bytes: vec![b'a', b'b', b'c', 0] });
    assert_eq!(e.category(), ErrorCategory::Serialization);
    assert_eq!(e.message(), "String conversion error: nul byte found in provided data at position: 3");
}

#[test]
fn json_error_message() {
    let err = serde_json::from_str::<serde_json::Value>("{").unwrap_err();
    let text = err.to_string();
    let e = OverDriveError::from(err);
    assert_eq!(e.category(), ErrorCategory::Serialization);
    assert_eq!(e.message(), format!("JSON error: {}", text));
}

#[test]
fn io_error_conversion() {
    let e = OverDriveError::from(std::io::Error::new(std::io::ErrorKind::Other, "gone"));
    assert_eq!(e.category(), ErrorCategory::Io);
    assert_eq!(e.message(), "I/O error: gone");
}

#[test]
fn category_names() {
    let all = [
        (ErrorCategory::Database, "database"),
        (ErrorCategory::Query, "query"),
        (ErrorCategory::Transaction, "transaction"),
        (ErrorCategory::Authentication, "authentication"),
        (ErrorCategory::Table, "table"),
        (ErrorCategory::Io, "io"),
        (ErrorCategory::Library, "library"),
        (ErrorCategory::Serialization, "serialization"),
        (ErrorCategory::Parameter, "parameter"),
        (ErrorCategory::Connection, "connection"),
        (ErrorCategory::Timeout, "timeout"),
        (ErrorCategory::Constraint, "constraint"),
        (ErrorCategory::Index, "index"),
        (ErrorCategory::Encryption, "encryption"),
        (ErrorCategory::Version, "version"),
        (ErrorCategory::Other, "other"),
    ];
    for (c, n) in all {
        assert_eq!(c.as_str(), n);
    }
    for (a, _) in all {
        for (b, _) in all {
            assert_eq!(a.as_str() == b.as_str(), a == b);
        }
    }
}

#[test]
fn type_names() {
    assert_eq!(StorageEngine::Disk.as_str(), "Disk");
    assert_eq!(StorageEngine::RAM.as_str(), "RAM");
    assert_eq!(StorageEngine::Vector.as_str(), "Vector");
    assert_eq!(StorageEngine::TimeSeries.as_str(), "Time-Series");
    assert_eq!(StorageEngine::Graph.as_str(), "Graph");
    assert_eq!(StorageEngine::Streaming.as_str(), "Streaming");
    assert_eq!(IsolationLevel::ReadUncommitted.as_str(), "READ_UNCOMMITTED");
    assert_eq!(IsolationLevel::ReadCommitted.as_str(), "READ_COMMITTED");
    assert_eq!(IsolationLevel::RepeatableRead.as_str(), "REPEATABLE_READ");
    assert_eq!(IsolationLevel::Serializable.as_str(), "SERIALIZABLE");
    assert_eq!(IndexType::BTree.as_str(), "BTREE");
    assert_eq!(IndexType::Hash.as_str(), "HASH");
    assert_eq!(IndexType::Text.as_str(), "TEXT");
    assert_eq!(IndexType::Vector.as_str(), "VECTOR");
    assert_eq!(VectorMetric::Cosine.as_str(), "cosine");
    assert_eq!(VectorMetric::Euclidean.as_str(), "euclidean");
    assert_eq!(VectorMetric::Manhattan.as_str(), "manhattan");
    assert_eq!(VectorMetric::DotProduct.as_str(), "dot_product");
}

#[test]
fn defaults() {
    assert_eq!(IsolationLevel::default(), IsolationLevel::ReadCommitted);
    let o = TransactionOptions::default();
    assert_eq!(o.isolation_level, IsolationLevel::ReadCommitted);
    assert_eq!(o.timeout_ms, None);
    assert!(o.deadlock_detection);
}

#[test]
fn query_result_accessors() {
    let r = QueryResult { rows: vec![JsonValue::Number(JsonNumber::PosInt(1)), JsonValue::Null] };
    assert_eq!(r.len(), 2);
    assert!(!r.is_empty());
    assert_eq!(r.first().and_then(|v| v.as_u64()), Some(1));
    assert_eq!(r.iter().count(), 2);
    let e = QueryResult { rows: vec![] };
    assert!(e.is_empty());
    assert!(e.first().is_none());
}

#[test]
fn bundled_locations() {
    assert_eq!(bundled_location("windows", "x86_64"), Some(("native/windows", "overdrive.dll")));
    assert_eq!(bundled_location("linux", "x86_64"), Some(("native/linux/x64", "liboverdrive.so")));
    assert_eq!(bundled_location("linux", "aarch64"), Some(("native/linux/arm64", "liboverdrive-arm64.so")));
    assert_eq!(bundled_location("macos", "x86_64"), Some(("native/macos/x64", "liboverdrive.dylib")));
    assert_eq!(bundled_location("macos", "aarch64"), Some(("native/macos/arm64", "liboverdrive-arm64.dylib")));
    assert_eq!(bundled_location("freebsd", "x86_64"), None);
}

#[test]
fn query_result_into_rows() {
    let r = QueryResult { rows: vec![JsonValue::Null, JsonValue::Bool(false)] };
    let rows: Vec<JsonValue> = r.into_iter().collect();
    assert_eq!(rows.len(), 2);
    assert_eq!(rows[1].as_bool(), Some(false));
}

#[test]
fn first_existing_library_candidate_wins() {
    assert_eq!(first_present(&vec![false, true, true]), Some(1));
    assert_eq!(first_present(&vec![true, false, true]), Some(0));
    assert_eq!(first_present(&vec![false, false, false]), None);
    assert_eq!(first_present(&vec![]), None);
}
