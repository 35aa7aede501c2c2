//! The native-library SDK (`OverdriveDb`): open options, isolation levels, errors, and
//! the decisions taken on what the native library answers.

use vstd::prelude::*;
use crate::json::{JsonValue, Fields, distinct_keys, insert_field, obj_map, spec_get, take_array};
use crate::result::concat_str;
use crate::client::errors::json_error_text;
use crate::text::{chars_of, decimal, join_spec, join_strings, str_eq, usize_to_text};

verus! {

/// An SDK error: a message.
#[derive(Debug)]
pub struct SdkError(pub String);

/// Result type of the native SDK.
pub type Result<T> = core::result::Result<T, SdkError>;

impl SdkError {
    /// The user-facing message of this error.
    pub fn message(&self) -> (r: String)
        ensures
            r@ == "[overdrive-sdk] "@ + self.0@,
    {
        concat_str("[overdrive-sdk] ", self.0.as_str())
    }
}

impl From<String> for SdkError {
    fn from(s: String) -> (r: Self)
        ensures
            r.0 == s,
    {
        SdkError(s)
    }
}

impl vstd::std_specs::convert::FromSpecImpl<String> for SdkError {
    open spec fn obeys_from_spec() -> bool {
        true
    }

    open spec fn from_spec(s: String) -> Self {
        SdkError(s)
    }
}

impl<'a> From<&'a str> for SdkError {
    fn from(s: &'a str) -> (r: Self)
        ensures
            r.0@ == s@,
    {
        SdkError(String::from_str(s))
    }
}

impl<'a> vstd::std_specs::convert::FromSpecImpl<&'a str> for SdkError {
    /// What `from` gives is stated on the impl itself, over the view of the text.
    open spec fn obeys_from_spec() -> bool {
        false
    }

    open spec fn from_spec(s: &'a str) -> Self {
        arbitrary()
    }
}

impl From<serde_json::Error> for SdkError {
    /// A JSON error becomes an error carrying the JSON error's text.
    fn from(e: serde_json::Error) -> (r: Self) {
        SdkError(json_error_text(&e))
    }
}

impl vstd::std_specs::convert::FromSpecImpl<serde_json::Error> for SdkError {
    /// The text of a JSON error is not modelled, so nothing is claimed of `from` here.
    open spec fn obeys_from_spec() -> bool {
        false
    }

    open spec fn from_spec(e: serde_json::Error) -> Self {
        arbitrary()
    }
}

/// MVCC transaction isolation levels.
#[derive(Debug, Clone, Copy, PartialEq, Eq, Structural)]
pub enum IsolationLevel {
    ReadUncommitted,
    ReadCommitted,
    RepeatableRead,
    Serializable,
}

impl IsolationLevel {
    /// The number the native library uses for a level.
    pub open spec fn code(&self) -> i32 {
        match self {
            IsolationLevel::ReadUncommitted => 0,
            IsolationLevel::ReadCommitted => 1,
            IsolationLevel::RepeatableRead => 2,
            IsolationLevel::Serializable => 3,
        }
    }

    /// The number of a level (0 to 3, from the least to the most isolated).
    pub fn as_i32(&self) -> (r: i32)
        ensures
            r == self.code(),
    {
        match self {
            IsolationLevel::ReadUncommitted => 0,
            IsolationLevel::ReadCommitted => 1,
            IsolationLevel::RepeatableRead => 2,
            IsolationLevel::Serializable => 3,
        }
    }
}

/// A live MVCC transaction handle.
pub struct Transaction {
    pub id: u64,
}

/// Options for opening a database.
#[derive(Debug)]
pub struct OpenOptions {
    pub password: Option<String>,
    pub engine: Option<String>,
    pub auto_create_tables: bool,
}

impl Default for OpenOptions {
    fn default() -> (r: Self)
        ensures
            r.password is None,
            r.engine is None,
            !r.auto_create_tables,
    {
        OpenOptions { password: None, engine: None, auto_create_tables: false }
    }
}

impl OpenOptions {
    /// Options with no password, the default engine, and tables created on first use.
    pub fn new() -> (r: Self)
        ensures
            r.password is None,
            r.engine is None,
            r.auto_create_tables,
    {
        OpenOptions { password: None, engine: None, auto_create_tables: true }
    }

    /// These options with the given password.
    pub fn password(self, p: &str) -> (r: Self)
        ensures
            r.password matches Some(q) && q@ == p@,
            r.engine == self.engine,
            r.auto_create_tables == self.auto_create_tables,
    {
        OpenOptions { password: Some(String::from_str(p)), ..self }
    }

    /// These options with the given engine.
    pub fn engine(self, e: &str) -> (r: Self)
        ensures
            r.engine matches Some(q) && q@ == e@,
            r.password == self.password,
            r.auto_create_tables == self.auto_create_tables,
    {
        OpenOptions { engine: Some(String::from_str(e)), ..self }
    }

    /// The engine name handed to the native library: the chosen engine, `Disk` by default.
    pub open spec fn engine_name(&self) -> Seq<char> {
        match self.engine {
            Some(e) => e@,
            None => "Disk"@,
        }
    }

    /// What the native library is opened with: the engine name, and the options object
    /// `{"password": <password or null>, "auto_create_tables": <flag>}`.
    pub fn into_native_arguments(self) -> (r: (String, JsonValue))
        ensures
            r.0@ == self.engine_name(),
            r.1 matches JsonValue::Object(fields) && distinct_keys(fields@) && obj_map(fields@)
                == Map::<Seq<char>, JsonValue>::empty().insert(
                "password"@,
                match self.password {
                    Some(p) => JsonValue::Str(p),
                    None => JsonValue::Null,
                },
            ).insert("auto_create_tables"@, JsonValue::Bool(self.auto_create_tables)),
    {
        let engine = match self.engine {
            Some(e) => e,
            None => String::from_str("Disk"),
        };
        let password = match self.password {
            Some(p) => JsonValue::Str(p),
            None => JsonValue::Null,
        };
        let mut fields: Fields = Vec::new();
        insert_field(&mut fields, String::from_str("password"), password);
        insert_field(
            &mut fields,
            String::from_str("auto_create_tables"),
            JsonValue::Bool(self.auto_create_tables),
        );
        (engine, JsonValue::Object(fields))
    }
}

/// What an update or delete status code means: `Some(true)` when a document was changed
/// (1), `Some(false)` when none was (0), `None` for a failure (anything else).
pub fn change_status(code: i32) -> (r: Option<bool>)
    ensures
        r == (if code == 1 {
            Some(true)
        } else if code == 0 {
            Some(false)
        } else {
            None
        }),
{
    if code == 1 {
        Some(true)
    } else if code == 0 {
        Some(false)
    } else {
        None
    }
}

/// What a count from the native library means: `None` for a failure (negative).
pub fn count_status(n: i32) -> (r: Option<usize>)
    ensures
        r == (if n < 0 {
            None::<usize>
        } else {
            Some(n as usize)
        }),
{
    if n < 0 {
        None
    } else {
        Some(n as usize)
    }
}

/// The rows of a query response: the `rows` array when the response has one, otherwise
/// the response itself as the only row.
pub fn response_rows(v: JsonValue) -> (r: Vec<JsonValue>)
    ensures
        match spec_get(v, "rows"@) {
            Some(JsonValue::Array(a)) => r@ == a@,
            _ => r@ == seq![v],
        },
{
    let is_rows = match v.get("rows") {
        Some(x) => x.is_array(),
        None => false,
    };
    if is_rows {
        take_array(v, "rows")
    } else {
        let mut out: Vec<JsonValue> = Vec::new();
        out.push(v);
        out
    }
}

/// The operating systems the library names differ on.
#[derive(Debug, Clone, Copy, PartialEq, Eq, Structural)]
pub enum OsFamily {
    Windows,
    MacOs,
    Other,
}

/// The operating system family of an OS name as `std::env::consts::OS` gives it.
pub fn os_family(os: &str) -> (r: OsFamily)
    ensures
        r == (if os@ == "windows"@ {
            OsFamily::Windows
        } else if os@ == "macos"@ {
            OsFamily::MacOs
        } else {
            OsFamily::Other
        }),
{
    if str_eq(os, "windows") {
        OsFamily::Windows
    } else if str_eq(os, "macos") {
        OsFamily::MacOs
    } else {
        OsFamily::Other
    }
}

/// The file name of the native library on an OS.
pub open spec fn lib_file_name(os: OsFamily) -> Seq<char> {
    match os {
        OsFamily::Windows => "overdrive.dll"@,
        OsFamily::MacOs => "liboverdrive.dylib"@,
        OsFamily::Other => "liboverdrive.so"@,
    }
}

/// The file name of the native library on an OS.
pub fn lib_name(os: OsFamily) -> (r: &'static str)
    ensures
        r@ == lib_file_name(os),
{
    match os {
        OsFamily::Windows => "overdrive.dll",
        OsFamily::MacOs => "liboverdrive.dylib",
        OsFamily::Other => "liboverdrive.so",
    }
}

/// The platform names used for bundled libraries: the OS name as given (windows, linux
/// and macos stay as they are), and `x64` for `x86_64`, `arm64` for `aarch64`, any other
/// architecture as given.
pub fn platform(os: &str, arch: &str) -> (r: (String, String))
    ensures
        r.0@ == os@,
        r.1@ == (if arch@ == "x86_64"@ {
            "x64"@
        } else if arch@ == "aarch64"@ {
            "arm64"@
        } else {
            arch@
        }),
{
    let a = if str_eq(arch, "x86_64") {
        String::from_str("x64")
    } else if str_eq(arch, "aarch64") {
        String::from_str("arm64")
    } else {
        String::from_str(arch)
    };
    (String::from_str(os), a)
}

/// What follows the body of a transaction run by `transaction`.
#[derive(Debug, Clone, Copy, PartialEq, Eq, Structural)]
pub enum TxnStep {
    Commit,
    Abort,
}

/// After the body of a transaction: commit when it succeeded, abort when it failed.
pub fn after_body<T>(outcome: &Result<T>) -> (r: TxnStep)
    ensures
        outcome is Ok ==> r == TxnStep::Commit,
        outcome is Err ==> r == TxnStep::Abort,
{
    match outcome {
        Ok(_) => TxnStep::Commit,
        Err(_) => TxnStep::Abort,
    }
}

/// The transaction the native library began, given the id it answered: none for 0,
/// which it answers on failure.
pub fn begun_transaction(id: u64) -> (r: Option<Transaction>)
    ensures
        id == 0 ==> r is None,
        id != 0 ==> (r matches Some(t) && t.id == id),
{
    if id == 0 {
        None
    } else {
        Some(Transaction { id })
    }
}

/// The message for a native library that none of the candidate paths could load.
pub open spec fn load_failure_spec(candidates: Seq<Seq<char>>) -> Seq<char> {
    "[overdrive-sdk] Could not load native library.\nTried: "@ + join_spec(candidates, ", "@)
        + "\nSet OVERDRIVE_LIB_PATH to point to overdrive.dll/liboverdrive.so/liboverdrive.dylib"@
}

/// The message for a native library that none of the candidate paths could load.
pub fn load_failure_message(candidates: &Vec<String>) -> (r: String)
    ensures
        r@ == load_failure_spec(candidates@.map_values(|t: String| t@)),
{
    let tried = join_strings(candidates, ", ");
    let a = concat_str("[overdrive-sdk] Could not load native library.\nTried: ", tried.as_str());
    concat_str(
        a.as_str(),
        "\nSet OVERDRIVE_LIB_PATH to point to overdrive.dll/liboverdrive.so/liboverdrive.dylib",
    )
}

/// The number of UTF-8 bytes of a character.
pub open spec fn utf8_width(c: char) -> nat {
    let u = c as u32;
    if u < 0x80 {
        1
    } else if u < 0x800 {
        2
    } else if u < 0x10000 {
        3
    } else {
        4
    }
}

/// The number of UTF-8 bytes of a character sequence.
pub open spec fn utf8_size(s: Seq<char>) -> nat
    decreases s.len(),
{
    if s.len() == 0 {
        0
    } else {
        utf8_size(s.drop_last()) + utf8_width(s.last())
    }
}

/// The UTF-8 size of a prefix is at most that of the whole sequence.
proof fn lemma_utf8_size_prefix(s: Seq<char>, k: int)
    requires
        0 <= k <= s.len(),
    ensures
        utf8_size(s.take(k)) <= utf8_size(s),
    decreases s.len() - k,
{
    if k < s.len() {
        lemma_utf8_size_prefix(s, k + 1);
        assert(s.take(k + 1).drop_last() =~= s.take(k));
    } else {
        assert(s.take(k) =~= s);
    }
}

/// The byte offset of the first NUL character of `s`, if it has one.
pub open spec fn nul_offset(s: Seq<char>) -> Option<nat> {
    if exists|i: int| 0 <= i < s.len() && s[i] == '\0' {
        let i = choose|i: int|
            0 <= i < s.len() && s[i] == '\0' && forall|j: int| 0 <= j < i ==> s[j] != '\0';
        Some(utf8_size(s.take(i)))
    } else {
        None
    }
}

/// The message of the error for a value with an embedded NUL byte.
pub open spec fn nul_message(offset: nat) -> Seq<char> {
    "[overdrive-sdk] value contains an embedded NUL byte at offset "@ + decimal(offset)
        + "; refusing to silently truncate/corrupt the payload"@
}

/// Checks that `s` can be handed to the native library as a C string: an error naming
/// the byte offset of its first NUL character when it has one.
pub fn check_c_string(s: &str) -> (r: Result<()>)
    requires
        utf8_size(s@) <= usize::MAX,
    ensures
        match nul_offset(s@) {
            Some(o) => r matches Err(e) && e.0@ == nul_message(o),
            None => r is Ok,
        },
{
    let v = chars_of(s);
    let mut i: usize = 0;
    let mut bytes: usize = 0;
    while i < v.len()
        invariant
            v@ == s@,
            i <= v@.len(),
            bytes == utf8_size(v@.take(i as int)),
            utf8_size(s@) <= usize::MAX,
            forall|j: int| 0 <= j < i ==> v@[j] != '\0',
        decreases v.len() - i,
    {
        if v[i] == '\0' {
            proof {
                let w = choose|w: int|
                    0 <= w < s@.len() && s@[w] == '\0' && forall|j: int| 0 <= j < w ==> s@[j] != '\0';
                assert(0 <= i < s@.len() && s@[i as int] == '\0');
                if w < i {
                } else if w > i {
                    assert(s@[i as int] != '\0');
                }
            }
            let t = usize_to_text(bytes);
            let m1 = concat_str("[overdrive-sdk] value contains an embedded NUL byte at offset ", t.as_str());
            let m2 = concat_str(m1.as_str(), "; refusing to silently truncate/corrupt the payload");
            return Err(SdkError(m2));
        }
        let c = v[i] as u32;
        let w: usize = if c < 0x80 {
            1
        } else if c < 0x800 {
            2
        } else if c < 0x10000 {
            3
        } else {
            4
        };
        assert(v@.take(i + 1).drop_last() =~= v@.take(i as int));
        assert(w == utf8_width(v@[i as int]));
        proof {
            lemma_utf8_size_prefix(v@, i + 1);
            assert(v@.take(v@.len() as int) =~= v@);
        }
        bytes = bytes + w;
        i = i + 1;
    }
    Ok(())
}

} // verus!
