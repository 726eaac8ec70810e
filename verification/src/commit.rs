//! What a transaction sends to the catalog: requirements the catalog must
//! verify and updates it applies atomically — together with this crate's
//! own model of that application, used to reason about (and test) what a
//! commit does to the table metadata.

use vstd::prelude::*;

use crate::identifier::Identifier;
use crate::partition::PartitionSpec;
use crate::schema::Schema;
use crate::search::{first_where, lemma_first_where_determined};
use crate::snapshot::{Snapshot, SnapshotReference};
use crate::table_metadata::{FormatVersion, TableMetadata};

verus! {

/// A precondition the catalog must verify before applying updates.
#[derive(Debug)]
pub enum TableRequirement {
    /// The named reference must point at the given snapshot.
    AssertRefSnapshotId {
        /// The reference name.
        ref_name: String,
        /// The snapshot the reference must point at.
        snapshot_id: i64,
    },
}

/// A declarative change to table metadata, applied atomically by the
/// catalog.
#[derive(Debug)]
pub enum TableUpdate {
    /// Add a schema.
    AddSchema {
        /// The schema to add.
        schema: Schema,
        /// The highest column id of the schema, if known.
        last_column_id: Option<i32>,
    },
    /// Set the default partition spec.
    SetDefaultSpec {
        /// The id of the spec to make default.
        spec_id: i32,
    },
    /// Set table properties, overwriting properties of the same name.
    SetProperties {
        /// The properties to set.
        updates: Vec<(String, String)>,
    },
    /// Add a snapshot.
    AddSnapshot {
        /// The snapshot to add.
        snapshot: Snapshot,
    },
    /// Remove the snapshots with the given ids.
    RemoveSnapshots {
        /// The ids of the snapshots to remove.
        snapshot_ids: Vec<i64>,
    },
    /// Point a named reference at a snapshot.
    SetSnapshotRef {
        /// The reference name.
        ref_name: String,
        /// Where the reference points, with its retention.
        snapshot_reference: SnapshotReference,
    },
}

/// The staged changes of one table, as submitted to the catalog.
#[derive(Debug)]
pub struct CommitTable {
    /// Which table the changes belong to.
    pub identifier: Identifier,
    /// The preconditions the catalog must verify.
    pub requirements: Vec<TableRequirement>,
    /// The changes to apply.
    pub updates: Vec<TableUpdate>,
}

/// The mathematical content of a table's metadata: what the commit
/// machinery reads and rewrites, with strings and vectors abstracted to
/// their views.
#[verifier::ext_equal]
pub struct MetaView {
    /// The table format version.
    pub format_version: FormatVersion,
    /// The table's base location.
    pub location: Seq<char>,
    /// The highest sequence number assigned so far.
    pub last_sequence_number: int,
    /// The schemas.
    pub schemas: Seq<Schema>,
    /// The id of the current schema.
    pub current_schema_id: int,
    /// The partition specs.
    pub partition_specs: Seq<PartitionSpec>,
    /// The id of the default partition spec.
    pub default_spec_id: int,
    /// The table properties.
    pub properties: Seq<(Seq<char>, Seq<char>)>,
    /// The id of the current snapshot, if any.
    pub current_snapshot_id: Option<int>,
    /// The snapshots.
    pub snapshots: Seq<Snapshot>,
    /// The named references.
    pub refs: Seq<(Seq<char>, SnapshotReference)>,
}

/// The views of a property list's entries.
pub open spec fn props_view(props: Seq<(String, String)>) -> Seq<(Seq<char>, Seq<char>)> {
    Seq::new(props.len(), |i: int| (props[i].0@, props[i].1@))
}

/// The views of a reference list's entries.
pub open spec fn refs_view(refs: Seq<(String, SnapshotReference)>) -> Seq<
    (Seq<char>, SnapshotReference),
> {
    Seq::new(refs.len(), |i: int| (refs[i].0@, refs[i].1))
}

impl TableMetadata {
    /// The mathematical content of the metadata.
    pub open spec fn model(self) -> MetaView {
        MetaView {
            format_version: self.format_version,
            location: self.location@,
            last_sequence_number: self.last_sequence_number as int,
            schemas: self.schemas@,
            current_schema_id: self.current_schema_id as int,
            partition_specs: self.partition_specs@,
            default_spec_id: self.default_spec_id as int,
            properties: props_view(self.properties@),
            current_snapshot_id: match self.current_snapshot_id {
                Some(id) => Some(id as int),
                None => None,
            },
            snapshots: self.snapshots@,
            refs: refs_view(self.refs@),
        }
    }
}

/// Whether a model reference entry carries the given name.
pub open spec fn view_ref_named(name: Seq<char>) -> spec_fn((Seq<char>, SnapshotReference)) -> bool {
    |e: (Seq<char>, SnapshotReference)| e.0 == name
}

/// Whether a model property entry carries the given key.
pub open spec fn view_prop_named(key: Seq<char>) -> spec_fn((Seq<char>, Seq<char>)) -> bool {
    |e: (Seq<char>, Seq<char>)| e.0 == key
}

impl MetaView {
    /// The reference of the given name, if any.
    pub open spec fn ref_of(self, name: Seq<char>) -> Option<SnapshotReference> {
        let i = first_where(self.refs, view_ref_named(name));
        if i == -1 {
            None
        } else {
            Some(self.refs[i].1)
        }
    }

    /// The snapshot with the given id, if any.
    pub open spec fn snapshot_of(self, id: int) -> Option<Snapshot> {
        let i = first_where(self.snapshots, crate::table_metadata::snapshot_with_id_int(id));
        if i == -1 {
            None
        } else {
            Some(self.snapshots[i])
        }
    }
}

/// An association list with the first entry of the given name replaced,
/// or the new entry appended when none carries the name.
pub open spec fn assoc_set<V>(s: Seq<(Seq<char>, V)>, key: Seq<char>, value: V) -> Seq<
    (Seq<char>, V),
> {
    let i = first_where(s, |e: (Seq<char>, V)| e.0 == key);
    if i == -1 {
        s.push((key, value))
    } else {
        s.update(i, (key, value))
    }
}

/// A property list after applying a run of settings, first to last.
pub open spec fn props_after(
    props: Seq<(Seq<char>, Seq<char>)>,
    updates: Seq<(String, String)>,
) -> Seq<(Seq<char>, Seq<char>)>
    decreases updates.len(),
{
    if updates.len() == 0 {
        props
    } else {
        props_after(assoc_set(props, updates[0].0@, updates[0].1@), updates.skip(1))
    }
}

/// The snapshots that survive removing the given ids.
pub open spec fn snapshots_after_remove(snaps: Seq<Snapshot>, ids: Seq<i64>) -> Seq<Snapshot>
    decreases snaps.len(),
{
    if snaps.len() == 0 {
        snaps
    } else if ids.contains(snaps.last().snapshot_id) {
        snapshots_after_remove(snaps.drop_last(), ids)
    } else {
        snapshots_after_remove(snaps.drop_last(), ids).push(snaps.last())
    }
}

/// What one update does to the metadata: the catalog's application,
/// modelled locally.
pub open spec fn spec_apply_update(m: MetaView, u: TableUpdate) -> MetaView {
    match u {
        TableUpdate::AddSchema { schema, .. } => MetaView { schemas: m.schemas.push(schema), ..m },
        TableUpdate::SetDefaultSpec { spec_id } => MetaView {
            default_spec_id: spec_id as int,
            ..m
        },
        TableUpdate::SetProperties { updates } => MetaView {
            properties: props_after(m.properties, updates@),
            ..m
        },
        TableUpdate::AddSnapshot { snapshot } => MetaView {
            snapshots: m.snapshots.push(snapshot),
            last_sequence_number: if snapshot.sequence_number > m.last_sequence_number {
                snapshot.sequence_number as int
            } else {
                m.last_sequence_number
            },
            ..m
        },
        TableUpdate::RemoveSnapshots { snapshot_ids } => MetaView {
            snapshots: snapshots_after_remove(m.snapshots, snapshot_ids@),
            ..m
        },
        TableUpdate::SetSnapshotRef { ref_name, snapshot_reference } => MetaView {
            refs: assoc_set(m.refs, ref_name@, snapshot_reference),
            current_snapshot_id: if ref_name@ == "main"@ {
                Some(snapshot_reference.snapshot_id as int)
            } else {
                m.current_snapshot_id
            },
            ..m
        },
    }
}

/// What a run of updates does to the metadata, first to last.
pub open spec fn spec_apply_updates(m: MetaView, us: Seq<TableUpdate>) -> MetaView
    decreases us.len(),
{
    if us.len() == 0 {
        m
    } else {
        spec_apply_updates(spec_apply_update(m, us[0]), us.skip(1))
    }
}

/// Applying a non-empty run of updates applies the first, then the rest.
pub proof fn lemma_apply_step(m: MetaView, us: Seq<TableUpdate>)
    requires
        us.len() > 0,
    ensures
        spec_apply_updates(m, us) == spec_apply_updates(spec_apply_update(m, us[0]), us.skip(1)),
{
}

/// Applying no updates changes nothing.
pub proof fn lemma_apply_empty(m: MetaView, us: Seq<TableUpdate>)
    requires
        us.len() == 0,
    ensures
        spec_apply_updates(m, us) == m,
{
}

/// Whether the catalog accepts a requirement against the metadata.
pub open spec fn spec_requirement_holds(m: MetaView, req: TableRequirement) -> bool {
    match req {
        TableRequirement::AssertRefSnapshotId { ref_name, snapshot_id } => m.ref_of(ref_name@)
            matches Some(r) && r.snapshot_id == snapshot_id,
    }
}

/// Check one requirement against the metadata, as the catalog would.
pub fn check_table_requirement(metadata: &TableMetadata, req: &TableRequirement) -> (r: bool)
    ensures
        r == spec_requirement_holds(metadata.model(), *req),
{
    match req {
        TableRequirement::AssertRefSnapshotId { ref_name, snapshot_id } => {
            let found = metadata.ref_by_name(ref_name);
            proof {
                lemma_ref_view(metadata.refs@, ref_name@);
                let k = first_where(
                    metadata.refs@,
                    crate::table_metadata::ref_with_name(ref_name@),
                );
                if k != -1 {
                    crate::search::lemma_first_where_props(
                        metadata.refs@,
                        crate::table_metadata::ref_with_name(ref_name@),
                    );
                    assert(refs_view(metadata.refs@)[k] == (
                        metadata.refs@[k].0@,
                        metadata.refs@[k].1,
                    ));
                }
            }
            match found {
                Some(r) => r.snapshot_id == *snapshot_id,
                None => false,
            }
        },
    }
}

/// Check a run of requirements; true when every one holds.
pub fn check_table_requirements(metadata: &TableMetadata, reqs: &Vec<TableRequirement>) -> (r: bool)
    ensures
        r == (forall|i: int|
            0 <= i < reqs@.len() ==> spec_requirement_holds(metadata.model(), #[trigger] reqs@[i])),
{
    let n = reqs.len();
    let mut i: usize = 0;
    while i < n
        invariant
            i <= n,
            n == reqs@.len(),
            forall|j: int|
                0 <= j < i ==> spec_requirement_holds(metadata.model(), #[trigger] reqs@[j]),
        decreases n - i,
    {
        if !check_table_requirement(metadata, &reqs[i]) {
            return false;
        }
        i = i + 1;
    }
    true
}

/// Whether a list of snapshot ids holds the given id.
fn contains_id(ids: &Vec<i64>, id: i64) -> (r: bool)
    ensures
        r == ids@.contains(id),
{
    let n = ids.len();
    let mut i: usize = 0;
    while i < n
        invariant
            i <= n,
            n == ids@.len(),
            forall|j: int| 0 <= j < i ==> ids@[j] != id,
        decreases n - i,
    {
        if ids[i] == id {
            assert(ids@.contains(id));
            return true;
        }
        i = i + 1;
    }
    assert(!ids@.contains(id));
    false
}

/// Apply one update to the metadata, as the catalog would.
pub fn apply_table_update(metadata: &mut TableMetadata, update: TableUpdate)
    ensures
        final(metadata).model() == spec_apply_update(old(metadata).model(), update),
{
    let ghost u = update;
    match update {
        TableUpdate::AddSchema { schema, .. } => {
            metadata.schemas.push(schema);
            proof {
                assert(final(metadata).model() =~= spec_apply_update(old(metadata).model(), u));
            }
        },
        TableUpdate::SetDefaultSpec { spec_id } => {
            metadata.default_spec_id = spec_id;
            proof {
                assert(final(metadata).model() =~= spec_apply_update(old(metadata).model(), u));
            }
        },
        TableUpdate::SetProperties { updates } => {
            let ghost base = props_view(old(metadata).properties@);
            let ghost all = updates@;
            let mut updates = updates;
            let ghost mut done: int = 0;
            proof {
                assert(all.skip(0) =~= all);
            }
            while updates.len() > 0
                invariant
                    0 <= done <= all.len(),
                    updates@ =~= all.skip(done),
                    props_after(base, all) == props_after(
                        props_view(metadata.properties@),
                        all.skip(done),
                    ),
                    metadata.format_version == old(metadata).format_version,
                    metadata.location == old(metadata).location,
                    metadata.last_sequence_number == old(metadata).last_sequence_number,
                    metadata.schemas == old(metadata).schemas,
                    metadata.current_schema_id == old(metadata).current_schema_id,
                    metadata.partition_specs == old(metadata).partition_specs,
                    metadata.default_spec_id == old(metadata).default_spec_id,
                    metadata.current_snapshot_id == old(metadata).current_snapshot_id,
                    metadata.snapshots == old(metadata).snapshots,
                    metadata.refs == old(metadata).refs,
                decreases updates@.len(),
            {
                let pair = updates.remove(0);
                proof {
                    assert(pair == all[done]);
                    assert(updates@ =~= all.skip(done + 1));
                }
                set_property(metadata, pair);
                proof {
                    done = done + 1;
                }
            }
            proof {
                assert(all.skip(done).len() == 0);
                assert(props_after(props_view(metadata.properties@), all.skip(done))
                    == props_view(metadata.properties@));
                assert(final(metadata).model() =~= spec_apply_update(old(metadata).model(), u));
            }
        },
        TableUpdate::AddSnapshot { snapshot } => {
            if snapshot.sequence_number > metadata.last_sequence_number {
                metadata.last_sequence_number = snapshot.sequence_number;
            }
            metadata.snapshots.push(snapshot);
            proof {
                assert(final(metadata).model() =~= spec_apply_update(old(metadata).model(), u));
            }
        },
        TableUpdate::RemoveSnapshots { snapshot_ids } => {
            let mut rest: Vec<Snapshot> = Vec::new();
            core::mem::swap(&mut rest, &mut metadata.snapshots);
            let ghost before = rest@;
            let mut kept: Vec<Snapshot> = Vec::new();
            let n = rest.len();
            let mut i: usize = 0;
            while i < n
                invariant
                    i <= n,
                    n == before.len(),
                    rest@ =~= before.skip(i as int),
                    kept@ == snapshots_after_remove(before.take(i as int), snapshot_ids@),
                decreases n - i,
            {
                let s = rest.remove(0);
                proof {
                    assert(s == before[i as int]);
                    assert(rest@ =~= before.skip(i + 1));
                    assert(before.take(i + 1).drop_last() =~= before.take(i as int));
                    assert(before.take(i + 1).last() == before[i as int]);
                }
                let keep = !contains_id(&snapshot_ids, s.snapshot_id);
                if keep {
                    kept.push(s);
                }
                i = i + 1;
            }
            proof {
                assert(before.take(n as int) =~= before);
            }
            metadata.snapshots = kept;
            proof {
                assert(final(metadata).model() =~= spec_apply_update(old(metadata).model(), u));
            }
        },
        TableUpdate::SetSnapshotRef { ref_name, snapshot_reference } => {
            let main = "main".to_owned();
            if ref_name == main {
                metadata.current_snapshot_id = Some(snapshot_reference.snapshot_id);
            }
            let n = metadata.refs.len();
            let mut i: usize = 0;
            let mut found: Option<usize> = None;
            while i < n
                invariant
                    i <= n,
                    n == metadata.refs@.len(),
                    found is None ==> forall|j: int|
                        0 <= j < i ==> !(crate::table_metadata::ref_with_name(ref_name@)(
                            metadata.refs@[j],
                        )),
                    found matches Some(k) ==> first_where(
                        metadata.refs@,
                        crate::table_metadata::ref_with_name(ref_name@),
                    ) == k as int && (k as int) < metadata.refs@.len(),
                decreases n - i,
            {
                if found.is_none() && metadata.refs[i].0 == ref_name {
                    proof {
                        lemma_first_where_determined(
                            metadata.refs@,
                            crate::table_metadata::ref_with_name(ref_name@),
                            i as int,
                        );
                    }
                    found = Some(i);
                }
                i = i + 1;
            }
            proof {
                if found is None {
                    lemma_first_where_determined(
                        metadata.refs@,
                        crate::table_metadata::ref_with_name(ref_name@),
                        n as int,
                    );
                }
                lemma_ref_view(metadata.refs@, ref_name@);
            }
            match found {
                Some(k) => {
                    metadata.refs.remove(k);
                    metadata.refs.insert(k, (ref_name, snapshot_reference));
                    proof {
                        assert(metadata.refs@ =~= old(metadata).refs@.update(
                            k as int,
                            (ref_name, snapshot_reference),
                        ));
                        assert(refs_view(metadata.refs@) =~= assoc_set(
                            refs_view(old(metadata).refs@),
                            ref_name@,
                            snapshot_reference,
                        ));
                        assert(final(metadata).model() =~= spec_apply_update(
                            old(metadata).model(),
                            u,
                        ));
                    }
                },
                None => {
                    metadata.refs.push((ref_name, snapshot_reference));
                    proof {
                        assert(refs_view(metadata.refs@) =~= assoc_set(
                            refs_view(old(metadata).refs@),
                            ref_name@,
                            snapshot_reference,
                        ));
                        assert(final(metadata).model() =~= spec_apply_update(
                            old(metadata).model(),
                            u,
                        ));
                    }
                },
            }
        },
    }
}

/// Apply a run of updates to the metadata, first to last, as the
/// catalog would.
pub fn apply_table_updates(metadata: &mut TableMetadata, updates: Vec<TableUpdate>)
    ensures
        final(metadata).model() == spec_apply_updates(old(metadata).model(), updates@),
{
    let ghost all = updates@;
    let ghost base = old(metadata).model();
    let mut updates = updates;
    let ghost mut done: int = 0;
    proof {
        assert(all.skip(0) =~= all);
    }
    while updates.len() > 0
        invariant
            0 <= done <= all.len(),
            updates@ =~= all.skip(done),
            spec_apply_updates(base, all) == spec_apply_updates(metadata.model(), all.skip(done)),
        decreases updates@.len(),
    {
        let u = updates.remove(0);
        proof {
            assert(u == all[done]);
            assert(updates@ =~= all.skip(done + 1));
        }
        apply_table_update(metadata, u);
        proof {
            done = done + 1;
        }
    }
    proof {
        assert(all.skip(done).len() == 0);
    }
}

/// Set one property: the first entry of the same name is replaced, a
/// fresh name is appended.
fn set_property(metadata: &mut TableMetadata, pair: (String, String))
    ensures
        props_view(final(metadata).properties@) == assoc_set(
            props_view(old(metadata).properties@),
            pair.0@,
            pair.1@,
        ),
        final(metadata).format_version == old(metadata).format_version,
        final(metadata).location == old(metadata).location,
        final(metadata).last_sequence_number == old(metadata).last_sequence_number,
        final(metadata).schemas == old(metadata).schemas,
        final(metadata).current_schema_id == old(metadata).current_schema_id,
        final(metadata).partition_specs == old(metadata).partition_specs,
        final(metadata).default_spec_id == old(metadata).default_spec_id,
        final(metadata).current_snapshot_id == old(metadata).current_snapshot_id,
        final(metadata).snapshots == old(metadata).snapshots,
        final(metadata).refs == old(metadata).refs,
{
    let n = metadata.properties.len();
    let mut i: usize = 0;
    let mut found: Option<usize> = None;
    while i < n
        invariant
            i <= n,
            n == metadata.properties@.len(),
            found is None ==> forall|j: int|
                0 <= j < i ==> !(view_prop_named(pair.0@)(
                    (metadata.properties@[j].0@, metadata.properties@[j].1@),
                )),
            found matches Some(k) ==> first_where(
                props_view(metadata.properties@),
                view_prop_named(pair.0@),
            ) == k as int && (k as int) < metadata.properties@.len(),
        decreases n - i,
    {
        if found.is_none() && metadata.properties[i].0 == pair.0 {
            proof {
                lemma_first_where_determined(
                    props_view(metadata.properties@),
                    view_prop_named(pair.0@),
                    i as int,
                );
            }
            found = Some(i);
        }
        i = i + 1;
    }
    proof {
        if found is None {
            assert forall|j: int|
                0 <= j < props_view(metadata.properties@).len() implies !(view_prop_named(pair.0@)(
                props_view(metadata.properties@)[j],
            )) by {
                assert(props_view(metadata.properties@)[j] == (
                    metadata.properties@[j].0@,
                    metadata.properties@[j].1@,
                ));
            }
            lemma_first_where_determined(
                props_view(metadata.properties@),
                view_prop_named(pair.0@),
                props_view(metadata.properties@).len() as int,
            );
        }
    }
    match found {
        Some(k) => {
            metadata.properties.remove(k);
            metadata.properties.insert(k, pair);
            proof {
                assert(metadata.properties@ =~= old(metadata).properties@.update(k as int, pair));
                assert(props_view(metadata.properties@) =~= assoc_set(
                    props_view(old(metadata).properties@),
                    pair.0@,
                    pair.1@,
                ));
            }
        },
        None => {
            metadata.properties.push(pair);
            proof {
                assert(props_view(metadata.properties@) =~= assoc_set(
                    props_view(old(metadata).properties@),
                    pair.0@,
                    pair.1@,
                ));
            }
        },
    }
}

/// Looking a name up in the reference list and in its view agree.
proof fn lemma_ref_view(refs: Seq<(String, SnapshotReference)>, name: Seq<char>)
    ensures
        first_where(refs, crate::table_metadata::ref_with_name(name)) == first_where(
            refs_view(refs),
            view_ref_named(name),
        ),
    decreases refs.len(),
{
    if refs.len() != 0 {
        lemma_ref_view(refs.skip(1), name);
        assert(refs_view(refs).skip(1) =~= refs_view(refs.skip(1)));
        assert(refs_view(refs)[0] == (refs[0].0@, refs[0].1));
    }
}

} // verus!
