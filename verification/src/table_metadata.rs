//! The durable root of a table: format version, location, schemas,
//! partition specs, snapshots and named references.

use vstd::prelude::*;

use crate::error::Error;
use crate::partition::PartitionSpec;
use crate::schema::Schema;
use crate::search::{first_where, lemma_first_where_determined, lemma_first_where_props};
use crate::snapshot::{Snapshot, SnapshotReference};

verus! {

/// The table format version.
#[derive(Debug, Clone, Copy, PartialEq, Eq, Structural)]
pub enum FormatVersion {
    /// Version 1 of the table format.
    V1,
    /// Version 2 of the table format.
    V2,
}

/// The durable root of a table's metadata.
#[derive(Debug)]
pub struct TableMetadata {
    /// The table format version.
    pub format_version: FormatVersion,
    /// The table's base location.
    pub location: String,
    /// The highest sequence number assigned so far; monotone.
    pub last_sequence_number: i64,
    /// The schemas of the table's history.
    pub schemas: Vec<Schema>,
    /// The id of the current schema.
    pub current_schema_id: i32,
    /// The partition specs of the table's history.
    pub partition_specs: Vec<PartitionSpec>,
    /// The id of the default partition spec.
    pub default_spec_id: i32,
    /// Table properties, as key/value pairs.
    pub properties: Vec<(String, String)>,
    /// The id of the current snapshot, if the table has one.
    pub current_snapshot_id: Option<i64>,
    /// The snapshots of the table's history.
    pub snapshots: Vec<Snapshot>,
    /// Named references (branches and tags), each pointing at a snapshot.
    pub refs: Vec<(String, SnapshotReference)>,
}

/// Whether a schema carries the given id.
pub open spec fn schema_with_id(id: i32) -> spec_fn(Schema) -> bool {
    |s: Schema| s.schema_id == id
}

/// Whether a partition spec carries the given id.
pub open spec fn spec_with_id(id: i32) -> spec_fn(PartitionSpec) -> bool {
    |s: PartitionSpec| s.spec_id == id
}

/// Whether a snapshot carries the given id.
pub open spec fn snapshot_with_id(id: i64) -> spec_fn(Snapshot) -> bool {
    |s: Snapshot| s.snapshot_id == id
}

/// Whether a snapshot carries the given id, as a mathematical integer.
pub open spec fn snapshot_with_id_int(id: int) -> spec_fn(Snapshot) -> bool {
    |s: Snapshot| s.snapshot_id as int == id
}

/// Whether a reference entry carries the given name.
pub open spec fn ref_with_name(name: Seq<char>) -> spec_fn((String, SnapshotReference)) -> bool {
    |e: (String, SnapshotReference)| e.0@ == name
}

impl TableMetadata {
    /// The first schema with the given id, if any.
    pub open spec fn spec_schema_by_id(self, id: i32) -> Option<Schema> {
        let i = first_where(self.schemas@, schema_with_id(id));
        if i == -1 {
            None
        } else {
            Some(self.schemas@[i])
        }
    }

    /// The first partition spec with the given id, if any.
    pub open spec fn spec_spec_by_id(self, id: i32) -> Option<PartitionSpec> {
        let i = first_where(self.partition_specs@, spec_with_id(id));
        if i == -1 {
            None
        } else {
            Some(self.partition_specs@[i])
        }
    }

    /// The first snapshot with the given id, if any.
    pub open spec fn spec_snapshot_by_id(self, id: i64) -> Option<Snapshot> {
        let i = first_where(self.snapshots@, snapshot_with_id(id));
        if i == -1 {
            None
        } else {
            Some(self.snapshots@[i])
        }
    }

    /// The first reference with the given name, if any.
    pub open spec fn spec_ref_by_name(self, name: Seq<char>) -> Option<SnapshotReference> {
        let i = first_where(self.refs@, ref_with_name(name));
        if i == -1 {
            None
        } else {
            Some(self.refs@[i].1)
        }
    }

    /// The snapshot id a lookup resolves to: the named reference's when a
    /// branch is given, the current snapshot's otherwise.
    pub open spec fn spec_resolved_snapshot_id(self, branch: Option<Seq<char>>) -> Option<i64> {
        match branch {
            None => self.current_snapshot_id,
            Some(name) => match self.spec_ref_by_name(name) {
                Some(r) => Some(r.snapshot_id),
                None => None,
            },
        }
    }

    /// The schema a branch resolves to: the branch snapshot's recorded
    /// schema, the table's current schema where none is recorded or no
    /// snapshot exists; `None` where the resolved id names no schema or
    /// the snapshot pointer dangles.
    pub open spec fn spec_current_schema(self, branch: Option<Seq<char>>) -> Option<Schema> {
        match self.spec_resolved_snapshot_id(branch) {
            Some(id) => match self.spec_snapshot_by_id(id) {
                None => None,
                Some(snap) => {
                    let sid = match snap.schema_id {
                        Some(x) => x,
                        None => self.current_schema_id,
                    };
                    self.spec_schema_by_id(sid)
                },
            },
            None => self.spec_schema_by_id(self.current_schema_id),
        }
    }

    /// Structural soundness of the metadata: every reference and the
    /// current pointer name an existing snapshot, and the last sequence
    /// number dominates every snapshot's.
    pub open spec fn wf(self) -> bool {
        &&& self.spec_spec_by_id(self.default_spec_id) is Some
        &&& self.spec_schema_by_id(self.current_schema_id) is Some
        &&& self.current_snapshot_id matches Some(id) ==> self.spec_snapshot_by_id(id) is Some
        &&& forall|i: int|
            0 <= i < self.refs@.len() ==> self.spec_snapshot_by_id(
                (#[trigger] self.refs@[i]).1.snapshot_id,
            ) is Some
        &&& forall|i: int|
            0 <= i < self.snapshots@.len() ==> (#[trigger] self.snapshots@[i]).sequence_number
                <= self.last_sequence_number
        &&& forall|i: int, j: int|
            0 <= i < j < self.snapshots@.len() ==> (#[trigger] self.snapshots@[i]).snapshot_id != (
            #[trigger] self.snapshots@[j]).snapshot_id
        &&& self.last_sequence_number < 0x7fff_ffff_ffff_ffff
    }

    /// The default partition spec; fails with `InvalidFormat` when its id
    /// names no spec.
    pub fn default_partition_spec(&self) -> (r: Result<&PartitionSpec, Error>)
        ensures
            r matches Ok(s) ==> self.spec_spec_by_id(self.default_spec_id) == Some(*s),
            r is Err <==> self.spec_spec_by_id(self.default_spec_id) is None,
    {
        let n = self.partition_specs.len();
        let mut i: usize = 0;
        while i < n
            invariant
                i <= n,
                n == self.partition_specs@.len(),
                forall|j: int|
                    0 <= j < i ==> !(spec_with_id(self.default_spec_id)(
                        self.partition_specs@[j],
                    )),
            decreases n - i,
        {
            if self.partition_specs[i].spec_id == self.default_spec_id {
                proof {
                    lemma_first_where_determined(
                        self.partition_specs@,
                        spec_with_id(self.default_spec_id),
                        i as int,
                    );
                }
                return Ok(&self.partition_specs[i]);
            }
            i = i + 1;
        }
        proof {
            lemma_first_where_determined(
                self.partition_specs@,
                spec_with_id(self.default_spec_id),
                n as int,
            );
        }
        Err(Error::InvalidFormat("default partition spec id".to_owned()))
    }

    /// The first snapshot with the given id, if any.
    pub fn snapshot_by_id(&self, id: i64) -> (r: Option<&Snapshot>)
        ensures
            match r {
                Some(s) => self.spec_snapshot_by_id(id) == Some(*s),
                None => self.spec_snapshot_by_id(id) is None,
            },
    {
        let n = self.snapshots.len();
        let mut i: usize = 0;
        while i < n
            invariant
                i <= n,
                n == self.snapshots@.len(),
                forall|j: int| 0 <= j < i ==> !(snapshot_with_id(id)(self.snapshots@[j])),
            decreases n - i,
        {
            if self.snapshots[i].snapshot_id == id {
                proof {
                    lemma_first_where_determined(self.snapshots@, snapshot_with_id(id), i as int);
                }
                return Some(&self.snapshots[i]);
            }
            i = i + 1;
        }
        proof {
            lemma_first_where_determined(self.snapshots@, snapshot_with_id(id), n as int);
        }
        None
    }

    /// The first reference with the given name, if any.
    pub fn ref_by_name(&self, name: &String) -> (r: Option<&SnapshotReference>)
        ensures
            match r {
                Some(s) => self.spec_ref_by_name(name@) == Some(*s),
                None => self.spec_ref_by_name(name@) is None,
            },
    {
        let n = self.refs.len();
        let mut i: usize = 0;
        while i < n
            invariant
                i <= n,
                n == self.refs@.len(),
                forall|j: int| 0 <= j < i ==> !(ref_with_name(name@)(self.refs@[j])),
            decreases n - i,
        {
            if self.refs[i].0 == *name {
                proof {
                    lemma_first_where_determined(self.refs@, ref_with_name(name@), i as int);
                }
                return Some(&self.refs[i].1);
            }
            i = i + 1;
        }
        proof {
            lemma_first_where_determined(self.refs@, ref_with_name(name@), n as int);
        }
        None
    }

    /// The current snapshot for a branch: the one the named reference
    /// points at, or the table's current snapshot when no branch is
    /// given; `None` when the table (or the branch) has none.  Fails with
    /// `NotFound` when a pointer names a snapshot that does not exist.
    pub fn current_snapshot(&self, branch: Option<&String>) -> (r: Result<Option<&Snapshot>, Error>)
        ensures
            r matches Ok(Some(s)) ==> {
                &&& self.spec_resolved_snapshot_id(spec_branch_name(branch)) matches Some(id)
                &&& self.spec_snapshot_by_id(id) == Some(*s)
            },
            r matches Ok(None{}) ==> self.spec_resolved_snapshot_id(spec_branch_name(branch)) is None,
            r is Err ==> {
                &&& self.spec_resolved_snapshot_id(spec_branch_name(branch)) matches Some(id)
                &&& self.spec_snapshot_by_id(id) is None
            },
    {
        let id_opt: Option<i64> = match branch {
            None => self.current_snapshot_id,
            Some(name) => match self.ref_by_name(name) {
                Some(r) => Some(r.snapshot_id),
                None => None,
            },
        };
        match id_opt {
            None => Ok(None),
            Some(id) => match self.snapshot_by_id(id) {
                Some(s) => Ok(Some(s)),
                None => Err(Error::NotFound("Snapshot".to_owned(), "id".to_owned())),
            },
        }
    }

    /// The schema in effect for a branch: the branch snapshot's recorded
    /// schema when there is one, the table's current schema otherwise.
    /// Fails when the resolved id names no schema, or the branch pointer
    /// dangles.
    pub fn current_schema(&self, branch: Option<&String>) -> (r: Result<&Schema, Error>)
        ensures
            r matches Ok(s) ==> self.spec_current_schema(spec_branch_name(branch)) == Some(*s),
            r matches Ok(s) ==> self.spec_schema_by_id(s.schema_id) == Some(*s),
            r is Err <==> self.spec_current_schema(spec_branch_name(branch)) is None,
    {
        let snap = self.current_snapshot(branch)?;
        let schema_id = match snap {
            Some(s) => match s.schema_id {
                Some(id) => id,
                None => self.current_schema_id,
            },
            None => self.current_schema_id,
        };
        proof {
            assert(self.spec_current_schema(spec_branch_name(branch)) == self.spec_schema_by_id(
                schema_id,
            ));
        }
        let n = self.schemas.len();
        let mut i: usize = 0;
        while i < n
            invariant
                i <= n,
                n == self.schemas@.len(),
                self.spec_current_schema(spec_branch_name(branch)) == self.spec_schema_by_id(
                    schema_id,
                ),
                forall|j: int| 0 <= j < i ==> !(schema_with_id(schema_id)(self.schemas@[j])),
            decreases n - i,
        {
            if self.schemas[i].schema_id == schema_id {
                proof {
                    lemma_first_where_determined(
                        self.schemas@,
                        schema_with_id(schema_id),
                        i as int,
                    );
                }
                let found = &self.schemas[i];
                proof {
                    lemma_first_where_determined(
                        self.schemas@,
                        schema_with_id(found.schema_id),
                        i as int,
                    );
                }
                return Ok(found);
            }
            i = i + 1;
        }
        proof {
            lemma_first_where_determined(self.schemas@, schema_with_id(schema_id), n as int);
        }
        Err(Error::InvalidFormat("schema id".to_owned()))
    }
}

/// The branch name a caller passed, as a character sequence.
pub open spec fn spec_branch_name(branch: Option<&String>) -> Option<Seq<char>> {
    match branch {
        None => None,
        Some(s) => Some(s@),
    }
}

} // verus!
