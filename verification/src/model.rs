//! Values the SDK hands to its users: query results, statistics, transactions,
//! integrity reports and secret keys, and how each is read from what the native
//! library answers.

use vstd::prelude::*;
use crate::json::{
    JsonValue, JsonNumber, Fields, array_field, string_list, u64_field, spec_get, obj_map,
    distinct_keys, insert_field, string_list_of, u64_field_of, take_array,
};
use crate::result::{SdkError, SdkResult, concat_str};
use vstd::utf8::encode_utf8;

verus! {

/// Query result returned by `query()` (the execution time is measured by the caller).
#[derive(Debug)]
pub struct QueryResult {
    /// Result rows (JSON objects)
    pub rows: Vec<JsonValue>,
    /// Column names (for SELECT queries)
    pub columns: Vec<String>,
    /// Number of rows affected (for INSERT/UPDATE/DELETE)
    pub rows_affected: usize,
}

/// A non-negative integer read as a count: `n as usize`, or 0 when there is none.
pub open spec fn count_or_zero(n: Option<u64>) -> usize {
    match n {
        Some(k) => k as usize,
        None => 0,
    }
}

impl QueryResult {
    /// A result with no rows, no columns and nothing affected.
    pub fn empty() -> (r: Self)
        ensures
            r.rows@.len() == 0,
            r.columns@.len() == 0,
            r.rows_affected == 0,
    {
        QueryResult { rows: Vec::new(), columns: Vec::new(), rows_affected: 0 }
    }

    /// The result of a query as the native library reports it: the `rows` array, the
    /// string items of the `columns` array and the `rows_affected` count, each empty or
    /// zero when the response does not hold it.
    pub fn from_response(response: JsonValue) -> (r: Self)
        ensures
            r.rows@ == array_field(response, "rows"@),
            r.columns@.map_values(|t: String| t@) == string_list(response, "columns"@),
            r.rows_affected == count_or_zero(u64_field(response, "rows_affected"@)),
    {
        let columns = string_list_of(&response, "columns");
        let affected = match u64_field_of(&response, "rows_affected") {
            Some(n) => n as usize,
            None => 0,
        };
        let rows = take_array(response, "rows");
        QueryResult { rows, columns, rows_affected: affected }
    }
}

/// The statement that reads every document of a table.
pub fn scan_sql(table: &str) -> (r: String)
    ensures
        r@ == "SELECT * FROM "@ + table@,
{
    concat_str("SELECT * FROM ", table)
}

/// The rows of a scan response: its `rows` array, or nothing.
pub fn scan_rows(response: JsonValue) -> (r: Vec<JsonValue>)
    ensures
        r@ == array_field(response, "rows"@),
{
    take_array(response, "rows")
}

/// The hits of a search response: the items when it is an array, otherwise none.
pub fn search_hits(response: JsonValue) -> (r: Vec<JsonValue>)
    ensures
        r@ == (match response {
            JsonValue::Array(a) => a@,
            _ => Seq::<JsonValue>::empty(),
        }),
{
    match response {
        JsonValue::Array(a) => a,
        _ => Vec::new(),
    }
}

/// A record count as the native library reports it, negative values read as 0.
pub fn count_from_native(n: i32) -> (r: usize)
    ensures
        r == (if n < 0 {
            0
        } else {
            n as usize
        }),
{
    if n < 0 {
        0
    } else {
        n as usize
    }
}

/// The JSON number of a count.
pub fn count_value(n: usize) -> (v: JsonValue)
    ensures
        v == JsonValue::Number(JsonNumber::PosInt(n as u64)),
{
    JsonValue::Number(JsonNumber::PosInt(n as u64))
}

/// The path of the write-ahead log that belongs to a database file.
pub fn wal_path(path: &str) -> (r: String)
    ensures
        r@ == path@ + ".wal"@,
{
    concat_str(path, ".wal")
}

/// Refuses to create a database over a file that already exists.
pub fn check_can_create(path: &str, exists: bool) -> (r: SdkResult<()>)
    ensures
        exists ==> (r matches Err(SdkError::DatabaseAlreadyExists(p)) && p@ == path@),
        !exists ==> r is Ok,
{
    if exists {
        Err(SdkError::DatabaseAlreadyExists(String::from_str(path)))
    } else {
        Ok(())
    }
}

/// Refuses to open as existing a database whose file is missing.
pub fn check_exists(path: &str, exists: bool) -> (r: SdkResult<()>)
    ensures
        !exists ==> (r matches Err(SdkError::DatabaseNotFound(p)) && p@ == path@),
        exists ==> r is Ok,
{
    if exists {
        Ok(())
    } else {
        Err(SdkError::DatabaseNotFound(String::from_str(path)))
    }
}

/// Database statistics.
#[derive(Debug)]
pub struct Stats {
    pub tables: usize,
    pub total_records: usize,
    pub file_size_bytes: u64,
    pub path: String,
    /// Number of active MVCC versions in memory
    pub mvcc_active_versions: usize,
    /// Database page size in bytes (typically 4096)
    pub page_size: usize,
    /// SDK version string
    pub sdk_version: String,
}

/// The sum of a sequence of counts.
pub open spec fn total(counts: Seq<usize>) -> nat
    decreases counts.len(),
{
    if counts.len() == 0 {
        0
    } else {
        total(counts.drop_last()) + counts.last() as nat
    }
}

/// The page size the engine works with.
pub const PAGE_SIZE: usize = 4096;

impl Stats {
    /// The statistics of a database from its path, the size of its file, the record
    /// count of each of its tables and the version of the engine.
    pub fn collect(path: &str, file_size_bytes: u64, record_counts: &Vec<usize>, sdk_version: String) -> (r: Self)
        requires
            total(record_counts@) <= usize::MAX,
        ensures
            r.tables == record_counts@.len(),
            r.total_records == total(record_counts@),
            r.file_size_bytes == file_size_bytes,
            r.path@ == path@,
            r.mvcc_active_versions == 0,
            r.page_size == PAGE_SIZE,
            r.sdk_version == sdk_version,
    {
        let mut sum: usize = 0;
        let mut i: usize = 0;
        while i < record_counts.len()
            invariant
                i <= record_counts@.len(),
                sum == total(record_counts@.take(i as int)),
                total(record_counts@) <= usize::MAX,
            decreases record_counts.len() - i,
        {
            assert(record_counts@.take(i + 1).drop_last() =~= record_counts@.take(i as int));
            proof {
                lemma_total_prefix(record_counts@, i + 1);
            }
            sum = sum + record_counts[i];
            i = i + 1;
        }
        assert(record_counts@.take(record_counts@.len() as int) =~= record_counts@);
        Stats {
            tables: record_counts.len(),
            total_records: sum,
            file_size_bytes,
            path: String::from_str(path),
            mvcc_active_versions: 0,
            page_size: PAGE_SIZE,
            sdk_version,
        }
    }

    /// The statistics of a database as `collect` gives them, or none when the record
    /// counts add up to more than a `usize` holds.
    pub fn try_collect(path: &str, file_size_bytes: u64, record_counts: &Vec<usize>, sdk_version: String) -> (r: Option<Self>)
        ensures
            total(record_counts@) <= usize::MAX ==> (r matches Some(s) && s.tables == record_counts@.len()
                && s.total_records == total(record_counts@) && s.file_size_bytes == file_size_bytes
                && s.path@ == path@ && s.mvcc_active_versions == 0 && s.page_size == PAGE_SIZE
                && s.sdk_version == sdk_version),
            total(record_counts@) > usize::MAX ==> r is None,
    {
        let mut sum: usize = 0;
        let mut i: usize = 0;
        while i < record_counts.len()
            invariant
                i <= record_counts@.len(),
                sum == total(record_counts@.take(i as int)),
            decreases record_counts.len() - i,
        {
            assert(record_counts@.take(i + 1).drop_last() =~= record_counts@.take(i as int));
            match sum.checked_add(record_counts[i]) {
                Some(x) => sum = x,
                None => {
                    proof {
                        lemma_total_prefix(record_counts@, i + 1);
                    }
                    return None;
                },
            }
            i = i + 1;
        }
        assert(record_counts@.take(record_counts@.len() as int) =~= record_counts@);
        Some(Self::collect(path, file_size_bytes, record_counts, sdk_version))
    }
}

/// The total of a prefix is at most the total of the whole sequence.
proof fn lemma_total_prefix(s: Seq<usize>, k: int)
    requires
        0 <= k <= s.len(),
    ensures
        total(s.take(k)) <= total(s),
    decreases s.len() - k,
{
    if k < s.len() {
        lemma_total_prefix(s, k + 1);
        assert(s.take(k + 1).drop_last() =~= s.take(k));
    } else {
        assert(s.take(k) =~= s);
    }
}

/// MVCC isolation level of a transaction.
#[derive(Debug, Clone, Copy, PartialEq, Eq, Structural)]
pub enum IsolationLevel {
    /// Read uncommitted data (fastest, least safe)
    ReadUncommitted,
    /// Read only committed data (default)
    ReadCommitted,
    /// Repeatable reads within the transaction
    RepeatableRead,
    /// Full serializable isolation (slowest, safest)
    Serializable,
}

impl IsolationLevel {
    /// The number of a level: 0 to 3 from the weakest to the strongest.
    pub open spec fn code(self) -> i32 {
        match self {
            IsolationLevel::ReadUncommitted => 0,
            IsolationLevel::ReadCommitted => 1,
            IsolationLevel::RepeatableRead => 2,
            IsolationLevel::Serializable => 3,
        }
    }

    /// The level with a number; any number other than 0 to 3 gives `ReadCommitted`.
    pub open spec fn of_code(val: i32) -> IsolationLevel {
        if val == 0 {
            IsolationLevel::ReadUncommitted
        } else if val == 2 {
            IsolationLevel::RepeatableRead
        } else if val == 3 {
            IsolationLevel::Serializable
        } else {
            IsolationLevel::ReadCommitted
        }
    }

    /// The level with a number; any number other than 0 to 3 gives `ReadCommitted`.
    pub fn from_i32(val: i32) -> (r: Self)
        ensures
            r == Self::of_code(val),
    {
        match val {
            0 => IsolationLevel::ReadUncommitted,
            1 => IsolationLevel::ReadCommitted,
            2 => IsolationLevel::RepeatableRead,
            3 => IsolationLevel::Serializable,
            _ => IsolationLevel::ReadCommitted,
        }
    }

    /// The number of this level.
    pub fn as_i32(self) -> (r: i32)
        ensures
            r == self.code(),
    {
        match self {
            IsolationLevel::ReadUncommitted => 0,
            IsolationLevel::ReadCommitted => 1,
            IsolationLevel::RepeatableRead => 2,
            IsolationLevel::Serializable => 3,
        }
    }
}

/// A handle for an MVCC transaction.
#[derive(Debug, Clone, Copy)]
pub struct TransactionHandle {
    /// Unique transaction ID
    pub txn_id: u64,
    /// Isolation level of this transaction
    pub isolation: IsolationLevel,
    /// Whether this transaction is still active
    pub active: bool,
}

impl TransactionHandle {
    /// The handle of a transaction the engine has just begun.
    pub fn begun(txn_id: u64, isolation: IsolationLevel) -> (r: Self)
        ensures
            r.txn_id == txn_id,
            r.isolation == isolation,
            r.active,
    {
        TransactionHandle { txn_id, isolation, active: true }
    }
}

/// Result of an integrity verification check.
#[derive(Debug)]
pub struct IntegrityReport {
    /// Whether the database passed all checks
    pub is_valid: bool,
    /// Total pages checked
    pub pages_checked: usize,
    /// Total tables verified
    pub tables_verified: usize,
    /// List of issues found (empty if valid)
    pub issues: Vec<String>,
}

/// Whether an integrity response calls the database valid: its `valid` flag, or true
/// when it has none.
pub open spec fn report_valid(v: JsonValue) -> bool {
    match spec_get(v, "valid"@) {
        Some(JsonValue::Bool(b)) => b,
        _ => true,
    }
}

impl IntegrityReport {
    /// The report an integrity response describes; what it does not hold reads as
    /// valid, nothing checked and no issues. A report that lists an issue is not valid,
    /// whatever its `valid` flag says.
    pub fn from_response(v: &JsonValue) -> (r: Self)
        ensures
            r.is_valid == (report_valid(*v) && string_list(*v, "issues"@).len() == 0),
            r.pages_checked == count_or_zero(u64_field(*v, "pages_checked"@)),
            r.tables_verified == count_or_zero(u64_field(*v, "tables_verified"@)),
            r.issues@.map_values(|t: String| t@) == string_list(*v, "issues"@),
    {
        let is_valid = match v.get("valid") {
            Some(x) => match x.as_bool() {
                Some(b) => b,
                None => true,
            },
            None => true,
        };
        let pages = match u64_field_of(v, "pages_checked") {
            Some(n) => n as usize,
            None => 0,
        };
        let tables = match u64_field_of(v, "tables_verified") {
            Some(n) => n as usize,
            None => 0,
        };
        let issues = string_list_of(v, "issues");
        let is_valid = is_valid && issues.len() == 0;
        IntegrityReport { is_valid, pages_checked: pages, tables_verified: tables, issues }
    }
}

/// The response the SDK stands in with when the engine has no integrity check: valid,
/// no page checked, every table verified, no issue.
pub fn integrity_fallback(table_count: usize) -> (r: JsonValue)
    ensures
        r matches JsonValue::Object(fields) && distinct_keys(fields@) && obj_map(fields@).dom()
            =~= set!["valid"@, "pages_checked"@, "tables_verified"@, "issues"@],
        spec_get(r, "valid"@) == Some(JsonValue::Bool(true)),
        u64_field(r, "pages_checked"@) == Some(0u64),
        u64_field(r, "tables_verified"@) == Some(table_count as u64),
        spec_get(r, "issues"@) matches Some(JsonValue::Array(a)) && a@.len() == 0,
{
    let mut fields: Fields = Vec::new();
    insert_field(&mut fields, String::from_str("valid"), JsonValue::Bool(true));
    insert_field(&mut fields, String::from_str("pages_checked"), JsonValue::Number(JsonNumber::PosInt(0)));
    insert_field(&mut fields, String::from_str("tables_verified"), count_value(table_count));
    let no_issues: Vec<JsonValue> = Vec::new();
    let ghost e = no_issues;
    insert_field(&mut fields, String::from_str("issues"), JsonValue::Array(no_issues));
    proof {
        reveal_strlit("valid");
        reveal_strlit("pages_checked");
        reveal_strlit("tables_verified");
        reveal_strlit("issues");
        assert("valid"@.len() != "pages_checked"@.len());
        assert("valid"@.len() != "tables_verified"@.len());
        assert("valid"@.len() != "issues"@.len());
        assert("pages_checked"@.len() != "tables_verified"@.len());
        assert("pages_checked"@.len() != "issues"@.len());
        let m = obj_map(fields@);
        assert(m.dom().contains("valid"@) && m["valid"@] == JsonValue::Bool(true));
        assert(m.dom().contains("pages_checked"@));
        assert(m["pages_checked"@] == JsonValue::Number(JsonNumber::PosInt(0)));
        assert(m.dom().contains("tables_verified"@));
        assert(m["tables_verified"@] == JsonValue::Number(JsonNumber::PosInt(table_count as u64)));
        assert(m.dom().contains("issues"@) && m["issues"@] == JsonValue::Array(e));
        assert(e@.len() == 0);
    }
    JsonValue::Object(fields)
}

/// A secret key: the bytes of an encryption key, wiped from memory on request.
pub struct SecretKey(Vec<u8>);

impl View for SecretKey {
    type V = Seq<u8>;

    closed spec fn view(&self) -> Seq<u8> {
        self.0@
    }
}

/// Overwrites the bytes of `v` with zeros and empties it (`Zeroize` for `Vec<u8>`).
#[verifier::external_body]
fn wipe_bytes(v: &mut Vec<u8>)
    ensures
        final(v)@.len() == 0,
{
    zeroize::Zeroize::zeroize(v)
}

/// The message for an encryption key variable that is not set.
pub open spec fn key_unset_message(var: Seq<char>) -> Seq<char> {
    "Encryption key env var '"@ + var + "' is not set. Set it with: $env:"@ + var
        + "=\"your-secret-key\" (PowerShell) or export "@ + var + "=\"your-secret-key\" (bash)"@
}

/// The message for an encryption key variable that is set but empty.
pub open spec fn key_empty_message(var: Seq<char>) -> Seq<char> {
    "Encryption key env var '"@ + var + "' is set but empty."@
}

impl SecretKey {
    /// Create a `SecretKey` from raw bytes.
    pub fn new(bytes: Vec<u8>) -> (k: Self)
        ensures
            k@ == bytes@,
    {
        SecretKey(bytes)
    }

    /// Raw key bytes (use sparingly: minimize time in scope).
    pub fn as_bytes(&self) -> (b: &[u8])
        ensures
            b@ == self@,
    {
        self.0.as_slice()
    }

    /// Zeroes the key bytes and leaves the key empty.
    pub fn zeroize(&mut self)
        ensures
            final(self)@.len() == 0,
    {
        wipe_bytes(&mut self.0);
    }

    /// The key held by the environment variable `env_var`, given the variable's value
    /// (`None` when it is not set): its UTF-8 bytes, or a `SecurityError` when the
    /// variable is unset or empty.
    pub fn from_env_value(env_var: &str, value: Option<String>) -> (r: SdkResult<Self>)
        ensures
            match value {
                None => r matches Err(SdkError::SecurityError(m)) && m@ == key_unset_message(
                    env_var@,
                ),
                Some(v) => if v@.len() == 0 {
                    r matches Err(SdkError::SecurityError(m)) && m@ == key_empty_message(env_var@)
                } else {
                    r matches Ok(k) && k@ == encode_utf8(v@)
                },
            },
    {
        match value {
            None => {
                let m1 = concat_str("Encryption key env var '", env_var);
                let m2 = concat_str(m1.as_str(), "' is not set. Set it with: $env:");
                let m3 = concat_str(m2.as_str(), env_var);
                let m4 = concat_str(m3.as_str(), "=\"your-secret-key\" (PowerShell) or export ");
                let m5 = concat_str(m4.as_str(), env_var);
                let m6 = concat_str(m5.as_str(), "=\"your-secret-key\" (bash)");
                Err(SdkError::SecurityError(m6))
            },
            Some(v) => {
                if v.as_str().is_empty() {
                    let m1 = concat_str("Encryption key env var '", env_var);
                    let m2 = concat_str(m1.as_str(), "' is set but empty.");
                    Err(SdkError::SecurityError(m2))
                } else {
                    let bytes = vstd::slice::slice_to_vec(v.as_str().as_bytes());
                    Ok(SecretKey(bytes))
                }
            },
        }
    }
}

/// Reading a level back from its number gives the level; every level's number is 0 to 3.
pub proof fn law_isolation_code_roundtrip(l: IsolationLevel)
    ensures
        IsolationLevel::of_code(l.code()) == l,
        0 <= l.code() <= 3,
{
}

/// The stand-in integrity response reads as a valid report: nothing checked, every
/// table verified, no issue.
pub proof fn law_fallback_report(table_count: usize, r: JsonValue)
    requires
        spec_get(r, "valid"@) == Some(JsonValue::Bool(true)),
        u64_field(r, "pages_checked"@) == Some(0u64),
        u64_field(r, "tables_verified"@) == Some(table_count as u64),
        spec_get(r, "issues"@) matches Some(JsonValue::Array(a)) && a@.len() == 0,
    ensures
        report_valid(r),
        count_or_zero(u64_field(r, "pages_checked"@)) == 0,
        count_or_zero(u64_field(r, "tables_verified"@)) == table_count,
        string_list(r, "issues"@).len() == 0,
{
    assert((table_count as u64) as usize == table_count);
    assert(crate::json::string_items(Seq::<JsonValue>::empty()) =~= Seq::<Seq<char>>::empty());
}

} // verus!
