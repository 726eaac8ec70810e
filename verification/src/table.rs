//! The table handle: an identified table and its metadata, and the
//! builder that seeds a new table's configuration.

use vstd::prelude::*;

use crate::error::Error;
use crate::identifier::Identifier;
use crate::schema::Schema;
use crate::table_metadata::TableMetadata;
use crate::transaction::TableTransaction;

verus! {

/// The property naming the parquet compression codec.
pub const WRITE_PARQUET_COMPRESSION_CODEC: &'static str = "write.parquet.compression-codec";

/// The property naming the parquet compression level.
pub const WRITE_PARQUET_COMPRESSION_LEVEL: &'static str = "write.parquet.compression-level";

/// The property switching object-storage key layout on or off.
pub const WRITE_OBJECT_STORAGE_ENABLED: &'static str = "write.object-storage.enabled";

/// Accumulates the configuration of a table to be created.
#[derive(Debug)]
pub struct CreateTableBuilder {
    /// The table name, once given.
    pub name: Option<String>,
    /// The table location, once given.
    pub location: Option<String>,
    /// The table schema, once given.
    pub schema: Option<Schema>,
    /// The table properties collected so far.
    pub properties: Vec<(String, String)>,
}

impl CreateTableBuilder {
    /// An empty builder.
    pub fn new() -> (r: CreateTableBuilder)
        ensures
            r.name is None,
            r.location is None,
            r.schema is None,
            r.properties@.len() == 0,
    {
        CreateTableBuilder { name: None, location: None, schema: None, properties: Vec::new() }
    }

    /// Name the table.
    pub fn with_name(&mut self, name: String)
        ensures
            final(self).name == Some(name),
            final(self).location == old(self).location,
            final(self).schema == old(self).schema,
            final(self).properties == old(self).properties,
    {
        self.name = Some(name);
    }

    /// Place the table.
    pub fn with_location(&mut self, location: String)
        ensures
            final(self).location == Some(location),
            final(self).name == old(self).name,
            final(self).schema == old(self).schema,
            final(self).properties == old(self).properties,
    {
        self.location = Some(location);
    }

    /// Give the table its schema.
    pub fn with_schema(&mut self, schema: Schema)
        ensures
            final(self).schema == Some(schema),
            final(self).name == old(self).name,
            final(self).location == old(self).location,
            final(self).properties == old(self).properties,
    {
        self.schema = Some(schema);
    }

    /// Add a property.
    pub fn with_property(&mut self, entry: (String, String))
        ensures
            final(self).properties@ == old(self).properties@.push(entry),
            final(self).name == old(self).name,
            final(self).location == old(self).location,
            final(self).schema == old(self).schema,
    {
        self.properties.push(entry);
    }
}

/// An identified table and its current metadata.
#[derive(Debug)]
pub struct Table {
    identifier: Identifier,
    metadata: TableMetadata,
}

impl Table {
    /// A table builder seeded with the default write configuration:
    /// zstd parquet compression at level 1, object-storage layout off.
    pub fn builder() -> (r: CreateTableBuilder)
        ensures
            r.properties@.len() == 3,
            r.properties@[0].0@ == WRITE_PARQUET_COMPRESSION_CODEC@ && r.properties@[0].1@
                == "zstd"@,
            r.properties@[1].0@ == WRITE_PARQUET_COMPRESSION_LEVEL@ && r.properties@[1].1@ == "1"@,
            r.properties@[2].0@ == WRITE_OBJECT_STORAGE_ENABLED@ && r.properties@[2].1@
                == "false"@,
    {
        let mut builder = CreateTableBuilder::new();
        builder.with_property(
            (WRITE_PARQUET_COMPRESSION_CODEC.to_owned(), "zstd".to_owned()),
        );
        builder.with_property(
            (WRITE_PARQUET_COMPRESSION_LEVEL.to_owned(), "1".to_owned()),
        );
        builder.with_property(
            (WRITE_OBJECT_STORAGE_ENABLED.to_owned(), "false".to_owned()),
        );
        builder
    }

    /// A table from its identifier and metadata.
    pub fn new(identifier: Identifier, metadata: TableMetadata) -> (r: Table)
        ensures
            r.spec_identifier() == identifier,
            r.spec_metadata() == metadata,
    {
        Table { identifier, metadata }
    }

    /// The identifier, for spec use.
    pub closed spec fn spec_identifier(self) -> Identifier {
        self.identifier
    }

    /// The metadata, for spec use.
    pub closed spec fn spec_metadata(self) -> TableMetadata {
        self.metadata
    }

    /// The table's identifier within its catalog.
    pub fn identifier(&self) -> (r: &Identifier)
        ensures
            *r == self.spec_identifier(),
    {
        &self.identifier
    }

    /// The table's metadata.
    pub fn metadata(&self) -> (r: &TableMetadata)
        ensures
            *r == self.spec_metadata(),
    {
        &self.metadata
    }

    /// The table's metadata, surrendered.
    pub fn into_metadata(self) -> (r: TableMetadata)
        ensures
            r == self.spec_metadata(),
    {
        self.metadata
    }

    /// Replace the metadata with what the catalog returned at commit.
    pub fn update_metadata(&mut self, metadata: TableMetadata)
        ensures
            final(self).spec_identifier() == old(self).spec_identifier(),
            final(self).spec_metadata() == metadata,
    {
        self.metadata = metadata;
    }

    /// The schema of the table for a branch; the main branch if absent.
    pub fn current_schema(&self, branch: Option<&String>) -> (r: Result<&Schema, Error>)
        ensures
            r matches Ok(s) ==> self.spec_metadata().spec_current_schema(
                crate::table_metadata::spec_branch_name(branch),
            ) == Some(*s),
            r is Err <==> self.spec_metadata().spec_current_schema(
                crate::table_metadata::spec_branch_name(branch),
            ) is None,
    {
        self.metadata.current_schema(branch)
    }

    /// A new, empty transaction on this table.
    pub fn new_transaction(&mut self, branch: Option<&String>) -> (r: TableTransaction)
        ensures
            *final(self) == *old(self),
            r.operations@.len() == 0,
            (match r.branch {
                Some(b) => branch matches Some(a) && b@ == a@,
                None => branch is None,
            }),
    {
        let owned: Option<String> = match branch {
            Some(b) => Some(b.clone()),
            None => None,
        };
        TableTransaction::new(owned)
    }
}

} // verus!
