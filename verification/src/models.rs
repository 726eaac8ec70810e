//! The wire models of the catalog's REST protocol: what a commit returns,
//! what a transaction submits, what loading a table yields.

use vstd::prelude::*;

use crate::commit::CommitTable;
use crate::table_metadata::TableMetadata;

verus! {

/// What a successful table commit returns: the new metadata and where
/// it was written.
#[derive(Debug)]
pub struct CommitTableResponse {
    /// Where the metadata document was written.
    pub metadata_location: String,
    /// The table metadata after the commit.
    pub metadata: TableMetadata,
}

impl CommitTableResponse {
    /// A response from its parts.
    pub fn new(metadata_location: String, metadata: TableMetadata) -> (r: CommitTableResponse)
        ensures
            r.metadata_location == metadata_location,
            r.metadata == metadata,
    {
        CommitTableResponse { metadata_location, metadata }
    }
}

/// An atomic multi-table commit: the staged changes of every table.
#[derive(Debug)]
pub struct CommitTransactionRequest {
    /// The staged changes, one entry per table.
    pub table_changes: Vec<CommitTable>,
}

impl CommitTransactionRequest {
    /// A request from its table changes.
    pub fn new(table_changes: Vec<CommitTable>) -> (r: CommitTransactionRequest)
        ensures
            r.table_changes == table_changes,
    {
        CommitTransactionRequest { table_changes }
    }
}

/// A credential the catalog hands out for a storage location prefix.
#[derive(Debug)]
pub struct StorageCredential {
    /// The storage location prefix the credential applies to.
    pub prefix: String,
    /// The credential's configuration entries.
    pub config: Vec<(String, String)>,
}

impl StorageCredential {
    /// A credential from its parts.
    pub fn new(prefix: String, config: Vec<(String, String)>) -> (r: StorageCredential)
        ensures
            r.prefix == prefix,
            r.config == config,
    {
        StorageCredential { prefix, config }
    }
}

/// What loading a table yields: its metadata, and optionally where the
/// metadata lives, per-table configuration and storage credentials.
#[derive(Debug)]
pub struct LoadTableResult {
    /// Where the metadata document lives; absent for staged tables.
    pub metadata_location: Option<String>,
    /// The table metadata.
    pub metadata: TableMetadata,
    /// Table-specific configuration, if any.
    pub config: Option<Vec<(String, String)>>,
    /// Storage credentials, if any.
    pub storage_credentials: Option<Vec<StorageCredential>>,
}

impl LoadTableResult {
    /// A result carrying only metadata.
    pub fn new(metadata: TableMetadata) -> (r: LoadTableResult)
        ensures
            r.metadata_location is None,
            r.metadata == metadata,
            r.config is None,
            r.storage_credentials is None,
    {
        LoadTableResult { metadata_location: None, metadata, config: None, storage_credentials: None }
    }
}

/// What updating a namespace's properties asks for: removals and
/// updates.
#[derive(Debug)]
pub struct UpdateNamespacePropertiesRequest {
    /// The property names to remove, if any.
    pub removals: Option<Vec<String>>,
    /// The properties to set, if any.
    pub updates: Option<Vec<(String, String)>>,
}

impl UpdateNamespacePropertiesRequest {
    /// An empty request.
    pub fn new() -> (r: UpdateNamespacePropertiesRequest)
        ensures
            r.removals is None,
            r.updates is None,
    {
        UpdateNamespacePropertiesRequest { removals: None, updates: None }
    }
}

} // verus!
