//! Type definitions of the client SDK.

use vstd::prelude::*;
use crate::json::JsonValue;
use vstd::std_specs::iter::IteratorSpec;

verus! {

broadcast use vstd::std_specs::slice::axiom_spec_slice_iter;

/// Query result containing rows.
#[derive(Debug)]
pub struct QueryResult {
    /// Result rows as JSON values
    pub rows: Vec<JsonValue>,
}

impl QueryResult {
    /// Get number of rows
    pub fn len(&self) -> (r: usize)
        ensures
            r == self.rows@.len(),
    {
        self.rows.len()
    }

    /// Check if result is empty
    pub fn is_empty(&self) -> (r: bool)
        ensures
            r == (self.rows@.len() == 0),
    {
        self.rows.len() == 0
    }

    /// Get first row if available
    pub fn first(&self) -> (r: Option<&JsonValue>)
        ensures
            r matches Some(v) ==> self.rows@.len() > 0 && *v == self.rows@[0],
            r is None ==> self.rows@.len() == 0,
    {
        if self.rows.len() > 0 {
            Some(&self.rows[0])
        } else {
            None
        }
    }

    /// Iterate over rows
    pub fn iter(&self) -> (r: std::slice::Iter<'_, JsonValue>)
        ensures
            r.remaining() == self.rows@.as_ref(),
    {
        self.rows.as_slice().iter()
    }
}

impl IntoIterator for QueryResult {
    type Item = JsonValue;

    type IntoIter = std::vec::IntoIter<JsonValue>;

    /// The rows, by value.
    fn into_iter(self) -> (r: Self::IntoIter)
        ensures
            r.remaining() == self.rows@,
    {
        self.rows.into_iter()
    }
}

/// Storage engine types
#[derive(Debug, Clone, Copy, PartialEq, Eq, Structural)]
pub enum StorageEngine {
    /// Persistent disk storage (default)
    Disk,
    /// In-memory storage with snapshots
    RAM,
    /// Vector similarity search
    Vector,
    /// Time-series data with compression
    TimeSeries,
    /// Graph database with traversal
    Graph,
    /// Event streaming with topics
    Streaming,
}

impl StorageEngine {
    /// The name of an engine as the native library expects it.
    pub open spec fn name(&self) -> Seq<char> {
        match self {
            StorageEngine::Disk => "Disk"@,
            StorageEngine::RAM => "RAM"@,
            StorageEngine::Vector => "Vector"@,
            StorageEngine::TimeSeries => "Time-Series"@,
            StorageEngine::Graph => "Graph"@,
            StorageEngine::Streaming => "Streaming"@,
        }
    }

    /// Get engine name as string
    pub fn as_str(&self) -> (r: &'static str)
        ensures
            r@ == self.name(),
    {
        match self {
            StorageEngine::Disk => "Disk",
            StorageEngine::RAM => "RAM",
            StorageEngine::Vector => "Vector",
            StorageEngine::TimeSeries => "Time-Series",
            StorageEngine::Graph => "Graph",
            StorageEngine::Streaming => "Streaming",
        }
    }
}

/// Transaction isolation levels
#[derive(Debug, Clone, Copy, PartialEq, Eq, Structural)]
pub enum IsolationLevel {
    /// Read uncommitted data (fastest, least safe)
    ReadUncommitted,
    /// Read committed data only (default)
    ReadCommitted,
    /// Repeatable reads with snapshot isolation
    RepeatableRead,
    /// Full serializable isolation (slowest, safest)
    Serializable,
}

impl IsolationLevel {
    /// The name of an isolation level.
    pub open spec fn name(&self) -> Seq<char> {
        match self {
            IsolationLevel::ReadUncommitted => "READ_UNCOMMITTED"@,
            IsolationLevel::ReadCommitted => "READ_COMMITTED"@,
            IsolationLevel::RepeatableRead => "REPEATABLE_READ"@,
            IsolationLevel::Serializable => "SERIALIZABLE"@,
        }
    }

    /// Get isolation level name as string
    pub fn as_str(&self) -> (r: &'static str)
        ensures
            r@ == self.name(),
    {
        match self {
            IsolationLevel::ReadUncommitted => "READ_UNCOMMITTED",
            IsolationLevel::ReadCommitted => "READ_COMMITTED",
            IsolationLevel::RepeatableRead => "REPEATABLE_READ",
            IsolationLevel::Serializable => "SERIALIZABLE",
        }
    }
}

impl Default for IsolationLevel {
    fn default() -> (r: Self)
        ensures
            r == IsolationLevel::ReadCommitted,
    {
        IsolationLevel::ReadCommitted
    }
}

/// Transaction options
#[derive(Debug, Clone)]
pub struct TransactionOptions {
    /// Isolation level for the transaction
    pub isolation_level: IsolationLevel,
    /// Timeout in milliseconds (None for no timeout)
    pub timeout_ms: Option<u64>,
    /// Whether to enable deadlock detection
    pub deadlock_detection: bool,
}

impl Default for TransactionOptions {
    fn default() -> (r: Self)
        ensures
            r.isolation_level == IsolationLevel::ReadCommitted,
            r.timeout_ms is None,
            r.deadlock_detection,
    {
        Self {
            isolation_level: IsolationLevel::default(),
            timeout_ms: None,
            deadlock_detection: true,
        }
    }
}

/// Index definition
#[derive(Debug, Clone)]
pub struct IndexDefinition {
    /// Index name
    pub name: String,
    /// Table name
    pub table: String,
    /// Indexed columns/fields
    pub columns: Vec<String>,
    /// Whether index is unique
    pub unique: bool,
    /// Index type (btree, hash, text, etc.)
    pub index_type: IndexType,
}

/// Index types
#[derive(Debug, Clone, Copy, PartialEq, Eq, Structural)]
pub enum IndexType {
    /// B-tree index for range queries
    BTree,
    /// Hash index for exact matches
    Hash,
    /// Full-text search index
    Text,
    /// Vector similarity index
    Vector,
}

impl IndexType {
    /// The name of an index type.
    pub open spec fn name(&self) -> Seq<char> {
        match self {
            IndexType::BTree => "BTREE"@,
            IndexType::Hash => "HASH"@,
            IndexType::Text => "TEXT"@,
            IndexType::Vector => "VECTOR"@,
        }
    }

    /// Get index type name as string
    pub fn as_str(&self) -> (r: &'static str)
        ensures
            r@ == self.name(),
    {
        match self {
            IndexType::BTree => "BTREE",
            IndexType::Hash => "HASH",
            IndexType::Text => "TEXT",
            IndexType::Vector => "VECTOR",
        }
    }
}

/// Vector distance metrics
#[derive(Debug, Clone, Copy, PartialEq, Eq, Structural)]
pub enum VectorMetric {
    /// Cosine similarity
    Cosine,
    /// Euclidean distance
    Euclidean,
    /// Manhattan distance
    Manhattan,
    /// Dot product
    DotProduct,
}

impl VectorMetric {
    /// The name of a metric.
    pub open spec fn name(&self) -> Seq<char> {
        match self {
            VectorMetric::Cosine => "cosine"@,
            VectorMetric::Euclidean => "euclidean"@,
            VectorMetric::Manhattan => "manhattan"@,
            VectorMetric::DotProduct => "dot_product"@,
        }
    }

    /// Get metric name as string
    pub fn as_str(&self) -> (r: &'static str)
        ensures
            r@ == self.name(),
    {
        match self {
            VectorMetric::Cosine => "cosine",
            VectorMetric::Euclidean => "euclidean",
            VectorMetric::Manhattan => "manhattan",
            VectorMetric::DotProduct => "dot_product",
        }
    }
}

/// Distinct engines have distinct names.
pub proof fn law_engine_names_distinct(a: StorageEngine, b: StorageEngine)
    ensures
        a.name() == b.name() ==> a == b,
{
    reveal_strlit("Disk");
    reveal_strlit("RAM");
    reveal_strlit("Vector");
    reveal_strlit("Time-Series");
    reveal_strlit("Graph");
    reveal_strlit("Streaming");
    if a.name() == b.name() {
        assert(a.name().len() == b.name().len());
    }
}

} // verus!
