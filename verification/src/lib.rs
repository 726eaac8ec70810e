//! A client-side engine for the Iceberg table format.
//!
//! The crate models the metadata hierarchy of an Iceberg table (table
//! metadata, snapshots, manifest lists, manifests and data-file entries)
//! and implements the transaction engine for the data-file append and
//! rewrite operations, including the manifest-tree maintenance that keeps
//! the manifest fan-out balanced as snapshots accumulate.
//!
//! All algorithmic work happens on plain in-memory values.  Reading and
//! writing blobs on object storage, the record codec and the catalog calls
//! are performed by the embedding application, which feeds decoded values
//! in and carries planned artifacts out.

pub mod error;
pub mod search;
pub mod values;
pub mod rectangle;
pub mod schema;
pub mod partition;
pub mod snapshot;
pub mod table_metadata;
pub mod manifest_list;
pub mod manifest;
pub mod append;
pub mod identifier;
pub mod commit;
pub mod paths;
pub mod operation;
pub mod transaction;
pub mod table;
pub mod tabular;
pub mod models;
pub mod laws;
pub mod scan;
