use overdrive::native::load_failure_message;
use overdrive::native::{after_body, begun_transaction, TxnStep};
use overdrive::json::{JsonNumber, JsonValue};
use overdrive::native::{
    change_status, check_c_string, count_status, lib_name, os_family, platform, response_rows, IsolationLevel,
    OpenOptions, OsFamily, SdkError,
};

#[test]
fn open_options_builders() {
    let o = OpenOptions::new().password("secret").engine("RAM");
    assert_eq!(o.password.as_deref(), Some("secret"));
    assert_eq!(o.engine.as_deref(), Some("RAM"));
    assert!(o.auto_create_tables);
    let d = OpenOptions::default();
    assert!(!d.auto_create_tables);
}

#[test]
fn native_arguments() {
    let (engine, opts) = OpenOptions::new().into_native_arguments();
    assert_eq!(engine, "Disk");
    assert!(matches!(opts.get("password"), Some(JsonValue::Null)));
    assert_eq!(opts.get("auto_create_tables").and_then(|v| v.as_bool()), Some(true));

    let (engine, opts) = OpenOptions::new().password("pw").engine("Vector").into_native_arguments();
    assert_eq!(engine, "Vector");
    assert_eq!(opts.get("password").and_then(|v| v.as_str()), Some("pw"));
}

#[test]
fn isolation_numbers() {
    assert_eq!(IsolationLevel::ReadUncommitted.as_i32(), 0);
    assert_eq!(IsolationLevel::ReadCommitted.as_i32(), 1);
    assert_eq!(IsolationLevel::RepeatableRead.as_i32(), 2);
    assert_eq!(IsolationLevel::Serializable.as_i32(), 3);
}

#[test]
fn status_codes() {
    assert_eq!(change_status(1), Some(true));
    assert_eq!(change_status(0), Some(false));
    assert_eq!(change_status(-1), None);
    assert_eq!(change_status(2), None);
    assert_eq!(count_status(5), Some(5));
    assert_eq!(count_status(0), Some(0));
    assert_eq!(count_status(-1), None);
}

#[test]
fn rows_of_responses() {
    let rows = JsonValue::Array(vec![JsonValue::Null, JsonValue::Bool(true)]);
    let v = JsonValue::Object(vec![("rows".to_string(), rows)]);
    assert_eq!(response_rows(v).len(), 2);
    let single = JsonValue::Object(vec![("count".to_string(), JsonValue::Number(JsonNumber::PosInt(3)))]);
    let out = response_rows(single);
    assert_eq!(out.len(), 1);
    assert_eq!(out[0].get("count").and_then(|v| v.as_u64()), Some(3));
    let not_array = JsonValue::Object(vec![("rows".to_string(), JsonValue::Null)]);
    assert_eq!(response_rows(not_array).len(), 1);
}

#[test]
fn library_names() {
    assert_eq!(os_family("windows"), OsFamily::Windows);
    assert_eq!(os_family("macos"), OsFamily::MacOs);
    assert_eq!(os_family("linux"), OsFamily::Other);
    assert_eq!(lib_name(OsFamily::Windows), "overdrive.dll");
    assert_eq!(lib_name(OsFamily::MacOs), "liboverdrive.dylib");
    assert_eq!(lib_name(OsFamily::Other), "liboverdrive.so");
    assert_eq!(platform("linux", "x86_64"), ("linux".to_string(), "x64".to_string()));
    assert_eq!(platform("macos", "aarch64"), ("macos".to_string(), "arm64".to_string()));
    assert_eq!(platform("freebsd", "riscv64"), ("freebsd".to_string(), "riscv64".to_string()));
}

#[test]
fn c_strings() {
    assert!(check_c_string("plain").is_ok());
    assert!(check_c_string("").is_ok());
    match check_c_string("ab\0cd") {
        Err(SdkError(m)) => assert_eq!(
            m,
            "[overdrive-sdk] value contains an embedded NUL byte at offset 2; refusing to silently truncate/corrupt the payload"
        ),
        Ok(()) => panic!("expected an error"),
    }
    match check_c_string("é\0") {
        Err(e) => assert!(e.0.contains("offset 2;")),
        Ok(()) => panic!("expected an error"),
    }
}

#[test]
fn sdk_error_message_and_conversions() {
    let e = SdkError::from("boom");
    assert_eq!(e.message(), "[overdrive-sdk] boom");
    let e = SdkError::from("bang".to_string());
    assert_eq!(e.0, "bang");
}

#[test]
fn transactions() {
    let ok: Result<u32, SdkError> = Ok(3);
    let err: Result<u32, SdkError> = Err(SdkError("no".to_string()));
    assert_eq!(after_body(&ok), TxnStep::Commit);
    assert_eq!(after_body(&err), TxnStep::Abort);
    assert!(begun_transaction(0).is_none());
    assert_eq!(begun_transaction(42).map(|t| t.id), Some(42));
}

#[test]
fn load_failure() {
    let m = load_failure_message(&vec!["/a/liboverdrive.so".to_string(), "liboverdrive.so".to_string()]);
    assert_eq!(
        m,
        "[overdrive-sdk] Could not load native library.\nTried: /a/liboverdrive.so, liboverdrive.so\nSet OVERDRIVE_LIB_PATH to point to overdrive.dll/liboverdrive.so/liboverdrive.dylib"
    );
}

#[test]
fn sdk_error_from_json_error() {
    let err = serde_json::from_str::<serde_json::Value>("[1,").unwrap_err();
    let text = err.to_string();
    let e = SdkError::from(err);
    assert_eq!(e.0, text);
    assert!(!e.0.is_empty());
}
