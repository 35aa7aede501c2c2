use overdrive::json::{JsonNumber, JsonValue};
use overdrive::model::{
    check_can_create, check_exists, count_from_native, count_value, integrity_fallback, scan_rows, scan_sql,
    search_hits, wal_path, PAGE_SIZE,
};
use overdrive::{IntegrityReport, IsolationLevel, QueryResult, SdkError, SecretKey, Stats, TransactionHandle};

fn s(x: &str) -> JsonValue {
    JsonValue::Str(x.to_string())
}

fn n(x: u64) -> JsonValue {
    JsonValue::Number(JsonNumber::PosInt(x))
}

fn obj(fields: Vec<(&str, JsonValue)>) -> JsonValue {
    JsonValue::Object(fields.into_iter().map(|(k, v)| (k.to_string(), v)).collect())
}

#[test]
fn query_result_from_response() {
    let resp = obj(vec![
        ("rows", JsonValue::Array(vec![obj(vec![("a", n(1))]), obj(vec![("a", n(2))])])),
        ("columns", JsonValue::Array(vec![s("a"), n(3), s("b")])),
        ("rows_affected", n(7)),
    ]);
    let r = QueryResult::from_response(resp);
    assert_eq!(r.rows.len(), 2);
    assert_eq!(r.columns, vec!["a", "b"]);
    assert_eq!(r.rows_affected, 7);
}

#[test]
fn query_result_from_odd_response() {
    let r = QueryResult::from_response(obj(vec![("rows", n(1)), ("rows_affected", s("x"))]));
    assert!(r.rows.is_empty());
    assert!(r.columns.is_empty());
    assert_eq!(r.rows_affected, 0);
    let r = QueryResult::from_response(JsonValue::Null);
    assert!(r.rows.is_empty());
    let e = QueryResult::empty();
    assert!(e.rows.is_empty() && e.columns.is_empty() && e.rows_affected == 0);
}

#[test]
fn scans_and_searches() {
    assert_eq!(scan_sql("users"), "SELECT * FROM users");
    let rows = scan_rows(obj(vec![("rows", JsonValue::Array(vec![n(1), n(2)]))]));
    assert_eq!(rows.len(), 2);
    assert!(scan_rows(JsonValue::Array(vec![n(1)])).is_empty());
    assert_eq!(search_hits(JsonValue::Array(vec![n(1), n(2), n(3)])).len(), 3);
    assert!(search_hits(obj(vec![])).is_empty());
}

#[test]
fn counts() {
    assert_eq!(count_from_native(-1), 0);
    assert_eq!(count_from_native(0), 0);
    assert_eq!(count_from_native(42), 42);
    assert_eq!(count_value(5).as_u64(), Some(5));
}

#[test]
fn files() {
    assert_eq!(wal_path("app.odb"), "app.odb.wal");
    assert!(matches!(check_can_create("a.odb", true), Err(SdkError::DatabaseAlreadyExists(p)) if p == "a.odb"));
    assert!(check_can_create("a.odb", false).is_ok());
    assert!(matches!(check_exists("a.odb", false), Err(SdkError::DatabaseNotFound(p)) if p == "a.odb"));
    assert!(check_exists("a.odb", true).is_ok());
}

#[test]
fn stats_sum_counts() {
    let st = Stats::collect("app.odb", 8192, &vec![3, 0, 4], "1.4.5".to_string());
    assert_eq!(st.tables, 3);
    assert_eq!(st.total_records, 7);
    assert_eq!(st.file_size_bytes, 8192);
    assert_eq!(st.path, "app.odb");
    assert_eq!(st.mvcc_active_versions, 0);
    assert_eq!(st.page_size, 4096);
    assert_eq!(PAGE_SIZE, 4096);
    assert_eq!(st.sdk_version, "1.4.5");
    let tried = Stats::try_collect("app.odb", 8192, &vec![3, 0, 4], "1.4.5".to_string()).unwrap();
    assert_eq!(tried.total_records, 7);
    assert_eq!(tried.tables, 3);
    assert!(Stats::try_collect("x", 0, &vec![usize::MAX, 1], String::new()).is_none());
    let empty = Stats::collect("x", 0, &vec![], String::new());
    assert_eq!(empty.tables, 0);
    assert_eq!(empty.total_records, 0);
}

#[test]
fn isolation_levels() {
    assert_eq!(IsolationLevel::from_i32(0), IsolationLevel::ReadUncommitted);
    assert_eq!(IsolationLevel::from_i32(1), IsolationLevel::ReadCommitted);
    assert_eq!(IsolationLevel::from_i32(2), IsolationLevel::RepeatableRead);
    assert_eq!(IsolationLevel::from_i32(3), IsolationLevel::Serializable);
    assert_eq!(IsolationLevel::from_i32(99), IsolationLevel::ReadCommitted);
    assert_eq!(IsolationLevel::from_i32(-1), IsolationLevel::ReadCommitted);
    for l in [IsolationLevel::ReadUncommitted, IsolationLevel::ReadCommitted, IsolationLevel::RepeatableRead, IsolationLevel::Serializable] {
        assert_eq!(IsolationLevel::from_i32(l.as_i32()), l);
    }
    let t = TransactionHandle::begun(17, IsolationLevel::Serializable);
    assert_eq!(t.txn_id, 17);
    assert_eq!(t.isolation, IsolationLevel::Serializable);
    assert!(t.active);
}

#[test]
fn integrity_report_from_response() {
    let v = obj(vec![
        ("valid", JsonValue::Bool(false)),
        ("pages_checked", n(120)),
        ("tables_verified", n(4)),
        ("issues", JsonValue::Array(vec![s("bad checksum on page 7"), n(1)])),
    ]);
    let r = IntegrityReport::from_response(&v);
    assert!(!r.is_valid);
    assert_eq!(r.pages_checked, 120);
    assert_eq!(r.tables_verified, 4);
    assert_eq!(r.issues, vec!["bad checksum on page 7"]);
}

#[test]
fn integrity_report_with_issues_is_not_valid() {
    let v = obj(vec![("valid", JsonValue::Bool(true)), ("issues", JsonValue::Array(vec![s("x")]))]);
    let r = IntegrityReport::from_response(&v);
    assert!(!r.is_valid);
    assert_eq!(r.issues, vec!["x"]);
    let clean = obj(vec![("valid", JsonValue::Bool(true)), ("issues", JsonValue::Array(vec![]))]);
    assert!(IntegrityReport::from_response(&clean).is_valid);
}

#[test]
fn integrity_report_defaults() {
    let r = IntegrityReport::from_response(&JsonValue::Null);
    assert!(r.is_valid);
    assert_eq!(r.pages_checked, 0);
    assert_eq!(r.tables_verified, 0);
    assert!(r.issues.is_empty());
}

#[test]
fn integrity_fallback_reads_back_as_valid() {
    let v = integrity_fallback(3);
    let r = IntegrityReport::from_response(&v);
    assert!(r.is_valid);
    assert_eq!(r.pages_checked, 0);
    assert_eq!(r.tables_verified, 3);
    assert!(r.issues.is_empty());
}

#[test]
fn secret_keys() {
    let mut k = SecretKey::new(vec![1, 2, 3]);
    assert_eq!(k.as_bytes(), &[1, 2, 3]);
    k.zeroize();
    assert!(k.as_bytes().is_empty());
}

#[test]
fn secret_key_from_env_value() {
    let k = SecretKey::from_env_value("ODB_KEY", Some("my-secret-é".to_string())).unwrap();
    assert_eq!(k.as_bytes(), "my-secret-é".as_bytes());
    match SecretKey::from_env_value("ODB_KEY", None) {
        Err(SdkError::SecurityError(m)) => assert_eq!(
            m,
            "Encryption key env var 'ODB_KEY' is not set. Set it with: $env:ODB_KEY=\"your-secret-key\" (PowerShell) or export ODB_KEY=\"your-secret-key\" (bash)"
        ),
        _ => panic!("expected a security error"),
    }
    match SecretKey::from_env_value("ODB_KEY", Some(String::new())) {
        Err(SdkError::SecurityError(m)) => assert_eq!(m, "Encryption key env var 'ODB_KEY' is set but empty."),
        _ => panic!("expected a security error"),
    }
}

#[test]
fn sdk_error_messages() {
    assert_eq!(SdkError::DatabaseNotFound("a.odb".into()).message(), "Database not found: a.odb");
    assert_eq!(SdkError::InvalidQuery("x".into()).message(), "Invalid query: x");
    assert_eq!(SdkError::DatabaseClosed.message(), "Database is closed");
    assert_eq!(SdkError::SecurityError("no".into()).message(), "Security error: no");
    let io = SdkError::IoError(std::io::Error::new(std::io::ErrorKind::Other, "disk full"));
    assert_eq!(io.message(), "I/O error: disk full");
}

#[test]
fn sdk_error_conversions() {
    let io = SdkError::from(std::io::Error::new(std::io::ErrorKind::NotFound, "missing"));
    assert!(matches!(&io, SdkError::IoError(_)));
    assert_eq!(io.message(), "I/O error: missing");
    let err = serde_json::from_str::<serde_json::Value>("{").unwrap_err();
    let text = err.to_string();
    match SdkError::from(err) {
        SdkError::SerializationError(m) => assert_eq!(m, text),
        other => panic!("unexpected {:?}", other),
    }
}
