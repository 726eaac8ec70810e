//! Manifest-list entries: one header per manifest file of a snapshot,
//! with counts and per-column partition summaries, and the helpers that
//! turn summaries into bounding rectangles.

use vstd::prelude::*;

use crate::error::Error;
use crate::rectangle::{bounds_wf, Rectangle};
use crate::values::Value;

verus! {

/// What a manifest lists: data files or delete files.
#[derive(Debug, Clone, Copy, PartialEq, Eq, Structural)]
pub enum ManifestListContent {
    /// The manifest lists data files.
    Data,
    /// The manifest lists delete files.
    Deletes,
}

/// The summary of one partition column over a manifest's entries.
#[derive(Debug)]
pub struct FieldSummary {
    /// Whether any entry has a null value in this column.
    pub contains_null: bool,
    /// Whether any entry has a NaN value, where the column could hold one.
    pub contains_nan: Option<bool>,
    /// The smallest value of the column over the entries, if any is known.
    pub lower_bound: Option<Value>,
    /// The largest value of the column over the entries, if any is known.
    pub upper_bound: Option<Value>,
}

impl Clone for FieldSummary {
    /// A clone is the same summary.
    fn clone(&self) -> (r: Self)
        ensures
            r == *self,
    {
        FieldSummary {
            contains_null: self.contains_null,
            contains_nan: self.contains_nan,
            lower_bound: match &self.lower_bound {
                Some(v) => Some(v.clone()),
                None => None,
            },
            upper_bound: match &self.upper_bound {
                Some(v) => Some(v.clone()),
                None => None,
            },
        }
    }
}

/// One entry of a manifest list: the header of one manifest file.
#[derive(Debug)]
pub struct ManifestListEntry {
    /// Location of the manifest file.
    pub manifest_path: String,
    /// Length of the manifest file in bytes.
    pub manifest_length: i64,
    /// The partition spec the manifest was written under.
    pub partition_spec_id: i32,
    /// Whether the manifest lists data files or delete files.
    pub content: ManifestListContent,
    /// The sequence number of the snapshot that added the manifest.
    pub sequence_number: i64,
    /// The smallest sequence number of any live entry in the manifest.
    pub min_sequence_number: i64,
    /// The snapshot that added the manifest.
    pub added_snapshot_id: i64,
    /// How many entries were added by the manifest's snapshot.
    pub added_files_count: Option<i32>,
    /// How many entries existed before the manifest's snapshot.
    pub existing_files_count: Option<i32>,
    /// How many entries the manifest's snapshot deleted.
    pub deleted_files_count: Option<i32>,
    /// How many rows the added entries hold.
    pub added_rows_count: Option<i64>,
    /// How many rows the existing entries hold.
    pub existing_rows_count: Option<i64>,
    /// How many rows the deleted entries held.
    pub deleted_rows_count: Option<i64>,
    /// Per-partition-column summaries, most significant column first.
    pub partitions: Option<Vec<FieldSummary>>,
}

/// Whether two optional summary vectors hold the same summaries.
pub open spec fn partitions_eq(
    a: Option<Vec<FieldSummary>>,
    b: Option<Vec<FieldSummary>>,
) -> bool {
    match (a, b) {
        (Some(x), Some(y)) => x@ == y@,
        (None, None) => true,
        _ => false,
    }
}

/// Everything two manifest-list entries can agree on, field by field.
pub open spec fn entry_eq(a: ManifestListEntry, b: ManifestListEntry) -> bool {
    &&& a.manifest_path@ == b.manifest_path@
    &&& a.manifest_length == b.manifest_length
    &&& a.partition_spec_id == b.partition_spec_id
    &&& a.content == b.content
    &&& a.sequence_number == b.sequence_number
    &&& a.min_sequence_number == b.min_sequence_number
    &&& a.added_snapshot_id == b.added_snapshot_id
    &&& a.added_files_count == b.added_files_count
    &&& a.existing_files_count == b.existing_files_count
    &&& a.deleted_files_count == b.deleted_files_count
    &&& a.added_rows_count == b.added_rows_count
    &&& a.existing_rows_count == b.existing_rows_count
    &&& a.deleted_rows_count == b.deleted_rows_count
    &&& partitions_eq(a.partitions, b.partitions)
}

impl Clone for ManifestListEntry {
    /// A clone agrees with the original in every field.
    fn clone(&self) -> (r: Self)
        ensures
            entry_eq(r, *self),
    {
        ManifestListEntry {
            manifest_path: self.manifest_path.clone(),
            manifest_length: self.manifest_length,
            partition_spec_id: self.partition_spec_id,
            content: self.content,
            sequence_number: self.sequence_number,
            min_sequence_number: self.min_sequence_number,
            added_snapshot_id: self.added_snapshot_id,
            added_files_count: self.added_files_count,
            existing_files_count: self.existing_files_count,
            deleted_files_count: self.deleted_files_count,
            added_rows_count: self.added_rows_count,
            existing_rows_count: self.existing_rows_count,
            deleted_rows_count: self.deleted_rows_count,
            partitions: match &self.partitions {
                Some(v) => {
                    let c = v.clone();
                    proof {
                        assert(c@ =~= v@);
                    }
                    Some(c)
                },
                None => None,
            },
        }
    }
}

/// A version-1 manifest-list record carries no content kind and no
/// sequence numbers; lift it into the version-2 superset with `Data`
/// content and zero sequence numbers.
pub fn manifest_list_entry_from_v1(
    manifest_path: String,
    manifest_length: i64,
    partition_spec_id: i32,
    added_snapshot_id: i64,
    added_files_count: Option<i32>,
    existing_files_count: Option<i32>,
    deleted_files_count: Option<i32>,
    added_rows_count: Option<i64>,
    existing_rows_count: Option<i64>,
    deleted_rows_count: Option<i64>,
    partitions: Option<Vec<FieldSummary>>,
) -> (r: ManifestListEntry)
    ensures
        r.manifest_path == manifest_path,
        r.manifest_length == manifest_length,
        r.partition_spec_id == partition_spec_id,
        r.content == ManifestListContent::Data,
        r.sequence_number == 0,
        r.min_sequence_number == 0,
        r.added_snapshot_id == added_snapshot_id,
        r.added_files_count == added_files_count,
        r.existing_files_count == existing_files_count,
        r.deleted_files_count == deleted_files_count,
        r.added_rows_count == added_rows_count,
        r.existing_rows_count == existing_rows_count,
        r.deleted_rows_count == deleted_rows_count,
        r.partitions == partitions,
{
    ManifestListEntry {
        manifest_path,
        manifest_length,
        partition_spec_id,
        content: ManifestListContent::Data,
        sequence_number: 0,
        min_sequence_number: 0,
        added_snapshot_id,
        added_files_count,
        existing_files_count,
        deleted_files_count,
        added_rows_count,
        existing_rows_count,
        deleted_rows_count,
        partitions,
    }
}

/// The lower bounds of a summary vector, where every summary has one.
pub open spec fn spec_summary_mins(sums: Seq<FieldSummary>) -> Seq<Value> {
    Seq::new(sums.len(), |d: int| sums[d].lower_bound->Some_0)
}

/// The upper bounds of a summary vector, where every summary has one.
pub open spec fn spec_summary_maxs(sums: Seq<FieldSummary>) -> Seq<Value> {
    Seq::new(sums.len(), |d: int| sums[d].upper_bound->Some_0)
}

/// Whether every summary of the vector carries both bounds.
pub open spec fn spec_summary_bounded(sums: Seq<FieldSummary>) -> bool {
    forall|d: int|
        0 <= d < sums.len() ==> (#[trigger] sums[d]).lower_bound is Some && sums[d].upper_bound
            is Some
}

/// The bounding rectangle a summary vector describes.  Fails with
/// `NotFound` when a summary lacks a bound, and with `Type` when the
/// recorded bounds are not ordered comparable pairs.
pub fn summary_to_rectangle(sums: &Vec<FieldSummary>) -> (r: Result<Rectangle, Error>)
    ensures
        r matches Ok(rect) ==> {
            &&& spec_summary_bounded(sums@)
            &&& rect.mins() == spec_summary_mins(sums@)
            &&& rect.maxs() == spec_summary_maxs(sums@)
        },
        r is Err ==> !spec_summary_bounded(sums@) || !bounds_wf(
            spec_summary_mins(sums@),
            spec_summary_maxs(sums@),
        ),
{
    let mut mins: Vec<Value> = Vec::new();
    let mut maxs: Vec<Value> = Vec::new();
    let n = sums.len();
    let mut d: usize = 0;
    while d < n
        invariant
            d <= n,
            n == sums@.len(),
            mins@.len() == d as int,
            maxs@.len() == d as int,
            forall|j: int|
                0 <= j < d ==> (#[trigger] sums@[j]).lower_bound is Some && sums@[j].upper_bound
                    is Some,
            forall|j: int| 0 <= j < d ==> mins@[j] == sums@[j].lower_bound->Some_0,
            forall|j: int| 0 <= j < d ==> maxs@[j] == sums@[j].upper_bound->Some_0,
        decreases n - d,
    {
        let s = &sums[d];
        match (&s.lower_bound, &s.upper_bound) {
            (Some(lo), Some(hi)) => {
                mins.push(lo.clone());
                maxs.push(hi.clone());
            },
            _ => {
                return Err(Error::NotFound("Partition summary".to_owned(), "bound".to_owned()));
            },
        }
        d = d + 1;
    }
    proof {
        assert(mins@ =~= spec_summary_mins(sums@));
        assert(maxs@ =~= spec_summary_maxs(sums@));
    }
    Rectangle::new(mins, maxs)
}

/// A forward reader over the decoded entries of a manifest list, in
/// stored order.
#[derive(Debug)]
pub struct ManifestListReader {
    entries: Vec<ManifestListEntry>,
}

impl ManifestListReader {
    /// The entries not yet handed out.
    pub closed spec fn remaining(self) -> Seq<ManifestListEntry> {
        self.entries@
    }

    /// A reader over decoded manifest-list entries.
    pub fn new(entries: Vec<ManifestListEntry>) -> (r: ManifestListReader)
        ensures
            r.remaining() == entries@,
    {
        ManifestListReader { entries }
    }

    /// Whether any entry remains.
    pub fn is_empty(&self) -> (b: bool)
        ensures
            b == (self.remaining().len() == 0),
    {
        self.entries.len() == 0
    }

    /// The next entry, if one remains.
    pub fn next(&mut self) -> (r: Option<ManifestListEntry>)
        ensures
            old(self).remaining().len() == 0 ==> r is None && final(self).remaining()
                == old(self).remaining(),
            old(self).remaining().len() > 0 ==> {
                &&& r == Some(old(self).remaining()[0])
                &&& final(self).remaining() == old(self).remaining().skip(1)
            },
    {
        if self.entries.len() > 0 {
            let e = self.entries.remove(0);
            proof {
                assert(self.entries@ =~= old(self).remaining().skip(1));
            }
            Some(e)
        } else {
            None
        }
    }
}
/// Accumulates the manifest-list entries of one new snapshot: headers
/// of freshly written manifests and of manifests carried over, ending in
/// the snapshot that references the list.
pub struct ManifestListWriter {
    location: String,
    snapshot_id: i64,
    snapshot_uuid: String,
    sequence_number: i64,
    min_sequence_number: i64,
    snapshot_sequence: i64,
    partition_spec_id: i32,
    schema_id: i32,
    partition_names: Vec<String>,
    entries: Vec<ManifestListEntry>,
    manifest_index: u64,
}

impl ManifestListWriter {
    /// The accumulated manifest-list entries.
    pub closed spec fn spec_entries(self) -> Seq<ManifestListEntry> {
        self.entries@
    }

    /// The id of the snapshot being written.
    pub closed spec fn spec_snapshot_id(self) -> int {
        self.snapshot_id as int
    }

    /// The partition column names of the table's default spec.
    pub closed spec fn spec_names(self) -> Seq<String> {
        self.partition_names@
    }

    /// The table's base location.
    pub closed spec fn spec_location(self) -> Seq<char> {
        self.location@
    }

    /// The random name component of this snapshot's artifacts.
    pub closed spec fn spec_uuid(self) -> Seq<char> {
        self.snapshot_uuid@
    }

    /// The id of the schema the snapshot records.
    pub closed spec fn spec_schema_id(self) -> int {
        self.schema_id as int
    }

    /// The sequence number the snapshot will carry: the old tip's
    /// successor, or zero on a branch with no snapshot.
    pub closed spec fn spec_snapshot_sequence(self) -> int {
        self.snapshot_sequence as int
    }

    /// The index the next fresh manifest will be numbered with.
    pub closed spec fn spec_next_index(self) -> int {
        self.manifest_index as int
    }

    /// A writer for a fresh snapshot of the table: it draws a random
    /// snapshot id and artifact name, and derives the partition layout
    /// from the default spec and the branch's schema.  Fails exactly
    /// when the branch's schema cannot be resolved.
    pub fn try_new(table_metadata: &crate::table_metadata::TableMetadata, branch: Option<&String>)
        -> (r: Result<ManifestListWriter, Error>)
        requires
            table_metadata.wf(),
        ensures
            r matches Ok(w) ==> {
                &&& w.spec_entries().len() == 0
                &&& w.spec_snapshot_id() >= 0
                &&& w.spec_next_index() == 0
                &&& w.spec_location() == table_metadata.location@
                &&& w.spec_uuid().len() == 36
                &&& (table_metadata.spec_current_schema(
                    crate::table_metadata::spec_branch_name(branch),
                ) matches Some(sch) && w.spec_schema_id() == sch.schema_id)
                &&& w.spec_snapshot_sequence() == (match table_metadata.spec_resolved_snapshot_id(
                    crate::table_metadata::spec_branch_name(branch),
                ) {
                    Some(id) => table_metadata.spec_snapshot_by_id(id)->Some_0.sequence_number + 1,
                    None => 0,
                })
                &&& (table_metadata.spec_spec_by_id(table_metadata.default_spec_id) matches Some(
                    ps,
                ) && w.spec_names().len() == ps.fields@.len() && (forall|i: int|
                    0 <= i < ps.fields@.len() ==> w.spec_names()[i]@ == (
                    #[trigger] ps.fields@[i]).name@))
            },
            r is Err <==> table_metadata.spec_current_schema(
                crate::table_metadata::spec_branch_name(branch),
            ) is None,
    {
        let partition_spec = table_metadata.default_partition_spec()?;
        let partition_spec_id = *partition_spec.spec_id();
        let partition_names = partition_spec.field_names();
        let schema = table_metadata.current_schema(branch)?;
        let schema_id = *schema.schema_id();
        let snapshot_sequence: i64 = match table_metadata.current_snapshot(branch)? {
            Some(old_snap) => {
                let old_seq = *old_snap.sequence_number();
                proof {
                    let id = table_metadata.spec_resolved_snapshot_id(
                        crate::table_metadata::spec_branch_name(branch),
                    )->Some_0;
                    crate::search::lemma_first_where_props(
                        table_metadata.snapshots@,
                        crate::table_metadata::snapshot_with_id(id),
                    );
                }
                old_seq + 1
            },
            None => 0,
        };
        let snapshot_id = crate::snapshot::generate_snapshot_id();
        let snapshot_uuid = crate::operation::new_uuid_string();
        Ok(
            ManifestListWriter {
                location: table_metadata.location.clone(),
                snapshot_id,
                snapshot_uuid,
                sequence_number: table_metadata.last_sequence_number + 1,
                min_sequence_number: table_metadata.last_sequence_number,
                snapshot_sequence,
                partition_spec_id,
                schema_id,
                partition_names,
                entries: Vec::new(),
                manifest_index: 0,
            },
        )
    }

    /// The id of the snapshot being written.
    pub fn snapshot_id(&self) -> (r: i64)
        ensures
            r as int == self.spec_snapshot_id(),
    {
        self.snapshot_id
    }

    /// Append one manifest-list entry as it is.
    pub fn append_ser(&mut self, entry: ManifestListEntry)
        ensures
            final(self).spec_entries() == old(self).spec_entries().push(entry),
            unchanged_but_entries(*old(self), *final(self)),
    {
        self.entries.push(entry);
    }

    /// Write one fresh manifest per entry group and append the resulting
    /// headers to the list: group `i` becomes exactly the entries of the
    /// manifest numbered `next_index + i`, whose header counts the
    /// group's files and rows.
    pub fn append_manifest_entries_to_new_manifests(
        &mut self,
        grouped_manifest_entries: Vec<Vec<crate::manifest::ManifestEntry>>,
    ) -> (r: Result<Vec<crate::operation::ManifestPlan>, Error>)
        ensures
            r matches Ok(plans) ==> {
                &&& plans@.len() == grouped_manifest_entries@.len()
                &&& forall|i: int| 0 <= i < plans@.len() ==> (#[trigger] plans@[i]).entries@
                    == grouped_manifest_entries@[i]@
                &&& forall|i: int|
                    0 <= i < plans@.len() ==> (#[trigger] plans@[i]).header.manifest_path@ == old(
                        self,
                    ).spec_location() + "/metadata/"@ + old(self).spec_uuid() + "-m"@
                        + crate::paths::dec_str((old(self).spec_next_index() + i) as nat)
                        + ".avro"@
                &&& forall|i: int|
                    0 <= i < plans@.len() ==> crate::operation::fresh_manifest_ok(
                        #[trigger] plans@[i],
                        old(self).spec_names(),
                    )
                &&& forall|i: int|
                    0 <= i < plans@.len() ==> (#[trigger] plans@[i]).header.added_snapshot_id
                        as int == old(self).spec_snapshot_id()
                &&& final(self).spec_entries().len() == old(self).spec_entries().len()
                    + plans@.len()
                &&& forall|j: int|
                    0 <= j < old(self).spec_entries().len() ==> final(self).spec_entries()[j]
                        == old(self).spec_entries()[j]
                &&& forall|i: int|
                    0 <= i < plans@.len() ==> entry_eq(
                        final(self).spec_entries()[old(self).spec_entries().len() + i],
                        (#[trigger] plans@[i]).header,
                    )
                &&& final(self).spec_next_index() == old(self).spec_next_index()
                    + grouped_manifest_entries@.len()
            },
            (old(self).spec_names().len() == 0 && old(self).spec_next_index()
                + grouped_manifest_entries@.len() <= u64::MAX && (forall|i: int|
                0 <= i < grouped_manifest_entries@.len() ==> crate::manifest::records_nonneg(
                    (#[trigger] grouped_manifest_entries@[i])@,
                ) && grouped_manifest_entries@[i]@.len() < 0x7fff_ffff && crate::manifest::sum_records(
                    grouped_manifest_entries@[i]@,
                ) <= 0x7fff_ffff_ffff_ffff)) ==> r is Ok,
            r is Err ==> *final(self) == *old(self),
    {
        let count = grouped_manifest_entries.len() as u64;
        let next_index = match self.manifest_index.checked_add(count) {
            Some(v) => v,
            None => {
                return Err(Error::Conversion("manifest index".to_owned(), "u64".to_owned()));
            },
        };
        let plans = match crate::operation::write_fresh_groups(
            grouped_manifest_entries,
            &self.location,
            &self.snapshot_uuid,
            self.snapshot_id,
            self.partition_spec_id,
            self.sequence_number,
            self.min_sequence_number,
            &self.partition_names,
            self.manifest_index,
        ) {
            Ok(p) => p,
            Err(e) => {
                return Err(e);
            },
        };
        self.manifest_index = next_index;
        let n = plans.len();
        let mut i: usize = 0;
        while i < n
            invariant
                i <= n,
                n == plans@.len(),
                self.entries@.len() == old(self).entries@.len() + i,
                self.location == old(self).location,
                self.snapshot_id == old(self).snapshot_id,
                self.snapshot_uuid == old(self).snapshot_uuid,
                self.sequence_number == old(self).sequence_number,
                self.min_sequence_number == old(self).min_sequence_number,
                self.snapshot_sequence == old(self).snapshot_sequence,
                self.partition_spec_id == old(self).partition_spec_id,
                self.schema_id == old(self).schema_id,
                self.partition_names == old(self).partition_names,
                self.manifest_index == next_index,
                forall|j: int|
                    0 <= j < old(self).entries@.len() ==> self.entries@[j] == old(
                        self,
                    ).entries@[j],
                forall|j: int|
                    0 <= j < i ==> entry_eq(
                        self.entries@[old(self).entries@.len() + j],
                        (#[trigger] plans@[j]).header,
                    ),
            decreases n - i,
        {
            self.entries.push(plans[i].header.clone());
            i = i + 1;
        }
        Ok(plans)
    }

    /// Extend an existing manifest with new entries and append the
    /// resulting header to the list: the carried entries stay in place,
    /// the counts grow by the new entries and their rows, and the
    /// summaries keep covering whatever the seeded summaries covered.
    pub fn append_manifests_entries_to_existing_manifest(
        &mut self,
        existing_list_entry: ManifestListEntry,
        existing_entries: Vec<crate::manifest::ManifestEntry>,
        new_manifest_entries: Vec<crate::manifest::ManifestEntry>,
    ) -> (r: Result<crate::operation::ManifestPlan, Error>)
        ensures
            r matches Ok(plan) ==> {
                &&& plan.entries@ == existing_entries@ + new_manifest_entries@
                &&& plan.header.manifest_path@ == existing_list_entry.manifest_path@
                &&& (plan.header.added_files_count matches Some(af) && af as int == (
                match existing_list_entry.added_files_count {
                    Some(b) => b as int,
                    None => 0,
                }) + new_manifest_entries@.len())
                &&& (plan.header.added_rows_count matches Some(ar) && ar as int == (
                match existing_list_entry.added_rows_count {
                    Some(b) => b as int,
                    None => 0,
                }) + crate::manifest::sum_records(new_manifest_entries@))
                &&& crate::manifest::summaries_bound(
                    plan.header.partitions,
                    old(self).spec_names(),
                    new_manifest_entries@,
                )
                &&& (forall|d: int, value: Option<crate::values::Value>|
                    #![trigger crate::manifest::summary_covers_one((existing_list_entry.partitions->Some_0)@[d], value)]
                    (0 <= d < old(self).spec_names().len() && existing_list_entry.partitions
                        is Some && crate::manifest::summary_covers_one(
                        (existing_list_entry.partitions->Some_0)@[d],
                        value,
                    )) ==> (plan.header.partitions matches Some(s) && d < s@.len()
                        && crate::manifest::summary_covers_one(s@[d], value)))
                &&& final(self).spec_entries().len() == old(self).spec_entries().len() + 1
                &&& entry_eq(final(self).spec_entries().last(), plan.header)
            },
            (old(self).spec_names().len() == 0 && existing_list_entry.partitions is None
                && crate::manifest::records_nonneg(existing_entries@)
                && crate::manifest::records_nonneg(new_manifest_entries@) && (
            match existing_list_entry.added_files_count {
                Some(b) => b as int,
                None => 0,
            }) + new_manifest_entries@.len() < 0x7fff_ffff && (
            match existing_list_entry.added_rows_count {
                Some(b) => b as int,
                None => 0,
            }) + crate::manifest::sum_records(new_manifest_entries@) <= 0x7fff_ffff_ffff_ffff)
                ==> r is Ok,
            r is Err ==> *final(self) == *old(self),
    {
        let plan = match crate::operation::extend_manifest(
            existing_list_entry,
            existing_entries,
            new_manifest_entries,
            &self.partition_names,
            self.snapshot_id,
            self.sequence_number,
        ) {
            Ok(p) => p,
            Err(e) => {
                return Err(e);
            },
        };
        self.entries.push(plan.header.clone());
        Ok(plan)
    }

    /// Close the list: the snapshot that references it, and the entries
    /// to serialize at the snapshot's manifest-list location.  The
    /// snapshot carries the old tip's sequence number plus one (zero on
    /// a fresh branch), the resolved schema, and the
    /// `snap-<id><uuid>.avro` location the list must be written to.
    pub fn finish(
        self,
        operation: crate::snapshot::Operation,
        additional_summary: Option<Vec<(String, String)>>,
    ) -> (r: (crate::snapshot::Snapshot, Vec<ManifestListEntry>))
        requires
            self.spec_snapshot_id() >= 0,
        ensures
            r.0.snapshot_id as int == self.spec_snapshot_id(),
            r.0.sequence_number as int == self.spec_snapshot_sequence(),
            r.0.schema_id matches Some(sid) && sid as int == self.spec_schema_id(),
            r.0.manifest_list@ == self.spec_location() + "/metadata/snap-"@ + crate::paths::dec_str(
                self.spec_snapshot_id() as nat,
            ) + self.spec_uuid() + ".avro"@,
            r.0.summary.operation == operation,
            (match additional_summary {
                Some(e) => r.0.summary.other@ == e@,
                None => r.0.summary.other@.len() == 0,
            }),
            r.1@ == self.spec_entries(),
    {
        let list_path = crate::paths::manifest_list_location(
            &self.location,
            self.snapshot_id as u64,
            &self.snapshot_uuid,
        );
        let other: Vec<(String, String)> = match additional_summary {
            Some(v) => v,
            None => Vec::new(),
        };
        let snapshot = crate::snapshot::Snapshot {
            snapshot_id: self.snapshot_id,
            sequence_number: self.snapshot_sequence,
            manifest_list: list_path,
            schema_id: Some(self.schema_id),
            summary: crate::snapshot::Summary { operation, other },
        };
        (snapshot, self.entries)
    }
}

/// Whether two list writers agree in everything but their accumulated
/// entries.
pub open spec fn unchanged_but_entries(a: ManifestListWriter, b: ManifestListWriter) -> bool {
    &&& a.spec_snapshot_id() == b.spec_snapshot_id()
    &&& a.spec_names() == b.spec_names()
    &&& a.spec_location() == b.spec_location()
    &&& a.spec_uuid() == b.spec_uuid()
    &&& a.spec_schema_id() == b.spec_schema_id()
    &&& a.spec_snapshot_sequence() == b.spec_snapshot_sequence()
    &&& a.spec_next_index() == b.spec_next_index()
}

} // verus!
