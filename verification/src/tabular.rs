//! The tabular facade: any queriable entity — a table, a view or a
//! materialized view — behind one interface, with the common reload
//! validation the commit path reuses.

use vstd::prelude::*;

use crate::error::Error;
use crate::identifier::Identifier;
use crate::table::Table;
use crate::table_metadata::TableMetadata;

verus! {

/// The metadata of a plain view.
#[derive(Debug)]
pub struct ViewMetadata {
    /// The view's base location.
    pub location: String,
    /// The current version of the view definition.
    pub current_version_id: i64,
}

/// The metadata of a materialized view.
#[derive(Debug)]
pub struct MaterializedViewMetadata {
    /// The materialized view's base location.
    pub location: String,
    /// The current version of the view definition.
    pub current_version_id: i64,
}

/// An identified view.
#[derive(Debug)]
pub struct View {
    /// The view's identifier within its catalog.
    pub identifier: Identifier,
    /// The view's metadata.
    pub metadata: ViewMetadata,
}

/// An identified materialized view.
#[derive(Debug)]
pub struct MaterializedView {
    /// The materialized view's identifier within its catalog.
    pub identifier: Identifier,
    /// The materialized view's metadata.
    pub metadata: MaterializedViewMetadata,
}

/// Any queriable entity: a table, a view or a materialized view.
#[derive(Debug)]
pub enum Tabular {
    /// An Iceberg table.
    Table(Table),
    /// An Iceberg view.
    View(View),
    /// An Iceberg materialized view.
    MaterializedView(MaterializedView),
}

/// The metadata of any queriable entity.
#[derive(Debug)]
pub enum TabularMetadata {
    /// Table metadata.
    Table(TableMetadata),
    /// View metadata.
    View(ViewMetadata),
    /// Materialized view metadata.
    MaterializedView(MaterializedViewMetadata),
}

impl Tabular {
    /// The entity's identifier within its catalog.
    pub fn identifier(&self) -> (r: &Identifier)
        ensures
            *r == (match *self {
                Tabular::Table(t) => t.spec_identifier(),
                Tabular::View(v) => v.identifier,
                Tabular::MaterializedView(m) => m.identifier,
            }),
    {
        match self {
            Tabular::Table(table) => table.identifier(),
            Tabular::View(view) => &view.identifier,
            Tabular::MaterializedView(mv) => &mv.identifier,
        }
    }

    /// The entity's metadata, surrendered.
    pub fn metadata(self) -> (r: TabularMetadata)
        ensures
            r == (match self {
                Tabular::Table(t) => TabularMetadata::Table(t.spec_metadata()),
                Tabular::View(v) => TabularMetadata::View(v.metadata),
                Tabular::MaterializedView(m) => TabularMetadata::MaterializedView(m.metadata),
            }),
    {
        match self {
            Tabular::Table(table) => TabularMetadata::Table(table.into_metadata()),
            Tabular::View(view) => TabularMetadata::View(view.metadata),
            Tabular::MaterializedView(mv) => TabularMetadata::MaterializedView(mv.metadata),
        }
    }

    /// Validate what the catalog returned for a reload: the replacement
    /// for an entity must be an entity of the same kind; anything else
    /// is an `InvalidFormat` failure, and the offered entity is handed
    /// back untouched on success.
    pub fn accept_reload(&self, loaded: Tabular) -> (r: Result<Tabular, Error>)
        ensures
            r matches Ok(l) ==> l == loaded && same_kind(*self, loaded),
            r is Err <==> !same_kind(*self, loaded),
            r matches Err(e) ==> e is InvalidFormat,
    {
        let ok = match (self, &loaded) {
            (Tabular::Table(_), Tabular::Table(_)) => true,
            (Tabular::View(_), Tabular::View(_)) => true,
            (Tabular::MaterializedView(_), Tabular::MaterializedView(_)) => true,
            _ => false,
        };
        if ok {
            Ok(loaded)
        } else {
            Err(Error::InvalidFormat("Tabular type from catalog response".to_owned()))
        }
    }
}

/// Whether two entities are of the same kind.
pub open spec fn same_kind(a: Tabular, b: Tabular) -> bool {
    match (a, b) {
        (Tabular::Table(_), Tabular::Table(_)) => true,
        (Tabular::View(_), Tabular::View(_)) => true,
        (Tabular::MaterializedView(_), Tabular::MaterializedView(_)) => true,
        _ => false,
    }
}

impl TabularMetadata {
    /// The entity's base location.
    pub fn location(&self) -> (r: &String)
        ensures
            *r == (match *self {
                TabularMetadata::Table(t) => t.location,
                TabularMetadata::View(v) => v.location,
                TabularMetadata::MaterializedView(m) => m.location,
            }),
    {
        match self {
            TabularMetadata::Table(table) => &table.location,
            TabularMetadata::View(view) => &view.location,
            TabularMetadata::MaterializedView(mv) => &mv.location,
        }
    }

    /// The entity's progress marker: a table's last sequence number, a
    /// view's current version.
    pub fn sequence_number(&self) -> (r: i64)
        ensures
            r == (match *self {
                TabularMetadata::Table(t) => t.last_sequence_number,
                TabularMetadata::View(v) => v.current_version_id,
                TabularMetadata::MaterializedView(m) => m.current_version_id,
            }),
    {
        match self {
            TabularMetadata::Table(table) => table.last_sequence_number,
            TabularMetadata::View(view) => view.current_version_id,
            TabularMetadata::MaterializedView(mv) => mv.current_version_id,
        }
    }
}

} // verus!
