//! The OverDrive-DB SDKs: the embedded SQL dialect, parameter binding, result shaping,
//! native-library decisions and error classification, each with its contract.

pub mod client;
pub mod dynamic;
pub mod json;
pub mod lexer;
pub mod model;
pub mod native;
pub mod query_engine;
pub mod result;
pub mod safe_query;
pub mod text;

pub use model::{IntegrityReport, IsolationLevel, QueryResult, SecretKey, Stats, TransactionHandle};
pub use result::{SdkError, SdkResult};
