//! Manifest entries — the data-file records of a manifest file — and the
//! in-memory manifest writer that maintains entry counts and partition
//! summaries as entries are appended.

use vstd::prelude::*;

use crate::error::Error;
use crate::manifest_list::{FieldSummary, ManifestListEntry};
use crate::values::{
    comparable, struct_value, val_le, val_lt, val_min, val_max, lemma_val_asym,
    lemma_val_lt_le_trans, Struct, Value,
};

verus! {

/// What a data file holds.
#[derive(Debug, Clone, Copy, PartialEq, Eq, Structural)]
pub enum Content {
    /// Data rows.
    Data,
    /// Position deletes.
    PositionDeletes,
    /// Equality deletes.
    EqualityDeletes,
}

/// The lifecycle status of a manifest entry.
#[derive(Debug, Clone, Copy, PartialEq, Eq, Structural)]
pub enum Status {
    /// The file existed before the manifest's snapshot.
    Existing,
    /// The file was added by the manifest's snapshot.
    Added,
    /// The file was deleted by the manifest's snapshot.
    Deleted,
}

/// One data file of the table.
#[derive(Debug)]
pub struct DataFile {
    /// What the file holds.
    pub content: Content,
    /// The file's location.
    pub file_path: String,
    /// The file's partition tuple.
    pub partition: Struct,
    /// How many rows the file holds.
    pub record_count: i64,
    /// The file's length in bytes.
    pub file_size_in_bytes: i64,
}

/// Whether two data files agree in every field.
pub open spec fn file_eq(a: DataFile, b: DataFile) -> bool {
    &&& a.content == b.content
    &&& a.file_path@ == b.file_path@
    &&& a.partition.fields@ == b.partition.fields@
    &&& a.record_count == b.record_count
    &&& a.file_size_in_bytes == b.file_size_in_bytes
}

impl Clone for DataFile {
    /// A clone agrees with the original in every field.
    fn clone(&self) -> (r: Self)
        ensures
            file_eq(r, *self),
    {
        DataFile {
            content: self.content,
            file_path: self.file_path.clone(),
            partition: self.partition.clone(),
            record_count: self.record_count,
            file_size_in_bytes: self.file_size_in_bytes,
        }
    }
}

impl DataFile {
    /// What the file holds.
    pub fn content(&self) -> (r: &Content)
        ensures
            *r == self.content,
    {
        &self.content
    }

    /// The file's location.
    pub fn file_path(&self) -> (r: &String)
        ensures
            *r == self.file_path,
    {
        &self.file_path
    }

    /// The file's partition tuple.
    pub fn partition(&self) -> (r: &Struct)
        ensures
            *r == self.partition,
    {
        &self.partition
    }

    /// How many rows the file holds.
    pub fn record_count(&self) -> (r: &i64)
        ensures
            *r == self.record_count,
    {
        &self.record_count
    }
}

/// One entry of a manifest file: a data file with its status and origin.
#[derive(Debug)]
pub struct ManifestEntry {
    /// The entry's lifecycle status.
    pub status: Status,
    /// The snapshot that wrote the entry, if recorded.
    pub snapshot_id: Option<i64>,
    /// The sequence number of the entry, absent when inherited.
    pub sequence_number: Option<i64>,
    /// The data file.
    pub data_file: DataFile,
}

/// Whether two manifest entries agree in every field.
pub open spec fn manifest_entry_eq(a: ManifestEntry, b: ManifestEntry) -> bool {
    &&& a.status == b.status
    &&& a.snapshot_id == b.snapshot_id
    &&& a.sequence_number == b.sequence_number
    &&& file_eq(a.data_file, b.data_file)
}

impl Clone for ManifestEntry {
    /// A clone agrees with the original in every field.
    fn clone(&self) -> (r: Self)
        ensures
            manifest_entry_eq(r, *self),
    {
        ManifestEntry {
            status: self.status,
            snapshot_id: self.snapshot_id,
            sequence_number: self.sequence_number,
            data_file: self.data_file.clone(),
        }
    }
}

impl ManifestEntry {
    /// The entry's lifecycle status.
    pub fn status(&self) -> (r: &Status)
        ensures
            *r == self.status,
    {
        &self.status
    }

    /// The entry's sequence number, absent when inherited.
    pub fn sequence_number(&self) -> (r: &Option<i64>)
        ensures
            *r == self.sequence_number,
    {
        &self.sequence_number
    }

    /// The data file.
    pub fn data_file(&self) -> (r: &DataFile)
        ensures
            *r == self.data_file,
    {
        &self.data_file
    }

    /// Substitute the enclosing manifest's sequence number where the
    /// entry carries none: version-2 inheritance at read time.
    pub fn inherit_sequence_number(&mut self, inherited: i64)
        ensures
            final(self).sequence_number == Some(
                match old(self).sequence_number {
                    Some(s) => s,
                    None => inherited,
                },
            ),
            final(self).status == old(self).status,
            final(self).snapshot_id == old(self).snapshot_id,
            final(self).data_file == old(self).data_file,
    {
        if self.sequence_number.is_none() {
            self.sequence_number = Some(inherited);
        }
    }
}

/// The total row count of a run of entries.
pub open spec fn sum_records(s: Seq<ManifestEntry>) -> int
    decreases s.len(),
{
    if s.len() == 0 {
        0
    } else {
        s[0].data_file.record_count + sum_records(s.skip(1))
    }
}

/// Appending an entry adds its row count to the total.
pub proof fn lemma_sum_records_push(s: Seq<ManifestEntry>, e: ManifestEntry)
    ensures
        sum_records(s.push(e)) == sum_records(s) + e.data_file.record_count,
    decreases s.len(),
{
    if s.len() == 0 {
        assert(s.push(e)[0] == e);
        assert(s.push(e).skip(1) =~= Seq::<ManifestEntry>::empty());
        assert(s.push(e).len() == 1);
        assert(sum_records(s.push(e)) == e.data_file.record_count + sum_records(
            s.push(e).skip(1),
        ));
        assert(sum_records(s.push(e).skip(1)) == 0);
    } else {
        assert(s.push(e)[0] == s[0]);
        assert(s.push(e).skip(1) =~= s.skip(1).push(e));
        lemma_sum_records_push(s.skip(1), e);
        assert(sum_records(s.push(e)) == s[0].data_file.record_count + sum_records(
            s.push(e).skip(1),
        ));
        assert(sum_records(s.push(e).skip(1)) == sum_records(s.skip(1).push(e)));
    }
}

/// All entries of a run of entries hold non-negative row counts.
pub open spec fn records_nonneg(s: Seq<ManifestEntry>) -> bool {
    forall|i: int| 0 <= i < s.len() ==> (#[trigger] s[i]).data_file.record_count >= 0
}

/// With non-negative row counts, every front segment's total lies
/// between zero and the whole.
pub proof fn lemma_sum_records_bounds(s: Seq<ManifestEntry>, k: int)
    requires
        records_nonneg(s),
        0 <= k <= s.len(),
    ensures
        0 <= sum_records(s.take(k)),
        sum_records(s.take(k)) <= sum_records(s),
{
    lemma_sum_take_nonneg(s, k);
    lemma_sum_take_upper(s, k);
}

/// A front segment of non-negative row counts has a non-negative total.
proof fn lemma_sum_take_nonneg(s: Seq<ManifestEntry>, k: int)
    requires
        records_nonneg(s),
        0 <= k <= s.len(),
    ensures
        0 <= sum_records(s.take(k)),
    decreases k,
{
    if k > 0 {
        assert(s.take(k) =~= s.take(k - 1).push(s[k - 1]));
        lemma_sum_records_push(s.take(k - 1), s[k - 1]);
        lemma_sum_take_nonneg(s, k - 1);
    }
}

/// Extending a front segment of non-negative row counts never shrinks
/// the total.
proof fn lemma_sum_take_upper(s: Seq<ManifestEntry>, k: int)
    requires
        records_nonneg(s),
        0 <= k <= s.len(),
    ensures
        sum_records(s.take(k)) <= sum_records(s),
    decreases s.len() - k,
{
    if k < s.len() {
        assert(s.take(k + 1) =~= s.take(k).push(s[k]));
        lemma_sum_records_push(s.take(k), s[k]);
        lemma_sum_take_upper(s, k + 1);
    } else {
        assert(s.take(k) =~= s);
    }
}

/// Whether an entry's partition values compare with the recorded bounds
/// of a summary vector, column by column: what appending it needs.
pub open spec fn entry_fits_summaries(
    partitions: Option<Vec<FieldSummary>>,
    names: Seq<String>,
    entry: ManifestEntry,
) -> bool {
    forall|d: int|
        0 <= d < names.len() ==> match struct_value(
            entry.data_file.partition,
            (#[trigger] names[d])@,
        ) {
            None => true,
            Some(v) => (partitions matches Some(s) ==> {
                &&& d < s@.len()
                &&& (s@[d].lower_bound matches Some(lo) ==> comparable(lo, v))
                &&& (s@[d].upper_bound matches Some(hi) ==> comparable(hi, v))
            }),
        }
}

/// Whether one partition-column summary covers one value of the column:
/// a null is flagged, a value lies within the recorded bounds.
pub open spec fn summary_covers_one(sum: FieldSummary, value: Option<Value>) -> bool {
    match value {
        None => sum.contains_null,
        Some(v) => {
            &&& sum.lower_bound matches Some(lo) && comparable(lo, v) && val_le(lo, v)
            &&& sum.upper_bound matches Some(hi) && comparable(v, hi) && val_le(v, hi)
        },
    }
}

/// Whether the partition summaries cover every value of every appended
/// entry, column by column.
pub open spec fn summaries_bound(
    partitions: Option<Vec<FieldSummary>>,
    names: Seq<String>,
    appended: Seq<ManifestEntry>,
) -> bool {
    forall|k: int, d: int|
        0 <= k < appended.len() && 0 <= d < names.len() ==> (partitions matches Some(s) && d
            < s@.len() && summary_covers_one(
            s@[d],
            struct_value((#[trigger] appended[k]).data_file.partition, (#[trigger] names[d])@),
        ))
}

/// The content a manifest writer started from: its carried entries and
/// the counts its header was seeded with.
pub struct WriterBase {
    /// The entries carried over from an existing manifest.
    pub entries: Seq<ManifestEntry>,
    /// The added-files count the header was seeded with.
    pub files: int,
    /// The added-rows count the header was seeded with.
    pub rows: int,
}

/// Streams manifest entries into an in-memory manifest, maintaining the
/// header's counts and partition summaries as entries are appended.
/// The serialized form and the byte length are the embedding
/// application's concern; the writer guarantees the bookkeeping.
pub struct ManifestWriter {
    header: ManifestListEntry,
    entries: Vec<ManifestEntry>,
    partition_names: Vec<String>,
    base: Ghost<WriterBase>,
}

impl ManifestWriter {
    /// The manifest's entries: the carried ones, then the appended ones.
    pub closed spec fn spec_entries(self) -> Seq<ManifestEntry> {
        self.entries@
    }

    /// The header being built.
    pub closed spec fn spec_header(self) -> ManifestListEntry {
        self.header
    }

    /// The partition column names the summaries are kept for.
    pub closed spec fn spec_names(self) -> Seq<String> {
        self.partition_names@
    }

    /// The entries carried over at construction.
    pub closed spec fn spec_base_entries(self) -> Seq<ManifestEntry> {
        self.base@.entries
    }

    /// The added-files count at construction.
    pub closed spec fn spec_base_files(self) -> int {
        self.base@.files
    }

    /// The added-rows count at construction.
    pub closed spec fn spec_base_rows(self) -> int {
        self.base@.rows
    }

    /// The entries appended since construction.
    pub open spec fn spec_appended(self) -> Seq<ManifestEntry> {
        self.spec_entries().skip(self.spec_base_entries().len() as int)
    }

    /// The writer's bookkeeping guarantee: the header's added counts are
    /// the seeded counts plus what was appended, and the partition
    /// summaries cover every appended entry.
    pub open spec fn inv(self) -> bool {
        &&& self.spec_entries() == self.spec_base_entries() + self.spec_appended()
        &&& self.spec_header().added_files_count matches Some(af) && af as int
            == self.spec_base_files() + self.spec_appended().len()
        &&& self.spec_header().added_rows_count matches Some(ar) && ar as int
            == self.spec_base_rows() + sum_records(self.spec_appended())
        &&& self.spec_header().partitions matches Some(s) ==> s@.len() == self.spec_names().len()
        &&& summaries_bound(self.spec_header().partitions, self.spec_names(), self.spec_appended())
    }

    /// A writer over a fresh, empty manifest at `manifest_path`: zero
    /// counts, no summaries, the given identity.
    pub fn new(
        manifest_path: String,
        snapshot_id: i64,
        partition_spec_id: i32,
        sequence_number: i64,
        min_sequence_number: i64,
        partition_names: Vec<String>,
    ) -> (w: ManifestWriter)
        ensures
            w.inv(),
            w.spec_entries() == Seq::<ManifestEntry>::empty(),
            w.spec_base_entries() == Seq::<ManifestEntry>::empty(),
            w.spec_base_files() == 0,
            w.spec_base_rows() == 0,
            w.spec_names() == partition_names@,
            w.spec_header().manifest_path@ == manifest_path@,
            w.spec_header().manifest_length == 0,
            w.spec_header().partition_spec_id == partition_spec_id,
            w.spec_header().content == crate::manifest_list::ManifestListContent::Data,
            w.spec_header().sequence_number == sequence_number,
            w.spec_header().min_sequence_number == min_sequence_number,
            w.spec_header().added_snapshot_id == snapshot_id,
            w.spec_header().added_files_count == Some(0i32),
            w.spec_header().existing_files_count == Some(0i32),
            w.spec_header().deleted_files_count == Some(0i32),
            w.spec_header().added_rows_count == Some(0i64),
            w.spec_header().existing_rows_count == Some(0i64),
            w.spec_header().deleted_rows_count == Some(0i64),
            w.spec_header().partitions is None,
    {
        let header = ManifestListEntry {
            manifest_path,
            manifest_length: 0,
            partition_spec_id,
            content: crate::manifest_list::ManifestListContent::Data,
            sequence_number,
            min_sequence_number,
            added_snapshot_id: snapshot_id,
            added_files_count: Some(0),
            existing_files_count: Some(0),
            deleted_files_count: Some(0),
            added_rows_count: Some(0),
            existing_rows_count: Some(0),
            deleted_rows_count: Some(0),
            partitions: None,
        };
        let w = ManifestWriter {
            header,
            entries: Vec::new(),
            partition_names,
            base: Ghost(WriterBase { entries: Seq::empty(), files: 0, rows: 0 }),
        };
        proof {
            assert(w.spec_appended() =~= Seq::<ManifestEntry>::empty());
            assert(w.spec_entries() =~= w.spec_base_entries() + w.spec_appended());
        }
        w
    }

    /// A writer seeded from an existing manifest: its entries are carried
    /// over as they are, the counts and summaries are seeded from its
    /// header (absent counts count as zero), and the header is re-stamped
    /// with the new snapshot's identity.  Fails with `InvalidFormat` when
    /// the seeded summaries do not match the partition columns.
    pub fn from_existing(
        existing_header: ManifestListEntry,
        existing_entries: Vec<ManifestEntry>,
        partition_names: Vec<String>,
        snapshot_id: i64,
        sequence_number: i64,
    ) -> (r: Result<ManifestWriter, Error>)
        ensures
            r matches Ok(w) ==> {
                &&& w.inv()
                &&& w.spec_entries() == existing_entries@
                &&& w.spec_base_entries() == existing_entries@
                &&& w.spec_base_files() == (match existing_header.added_files_count {
                    Some(af) => af as int,
                    None => 0,
                })
                &&& w.spec_base_rows() == (match existing_header.added_rows_count {
                    Some(ar) => ar as int,
                    None => 0,
                })
                &&& w.spec_names() == partition_names@
                &&& w.spec_header().manifest_path@ == existing_header.manifest_path@
                &&& w.spec_header().partition_spec_id == existing_header.partition_spec_id
                &&& w.spec_header().content == existing_header.content
                &&& w.spec_header().sequence_number == sequence_number
                &&& w.spec_header().min_sequence_number == existing_header.min_sequence_number
                &&& w.spec_header().added_snapshot_id == snapshot_id
                &&& crate::manifest_list::partitions_eq(
                    w.spec_header().partitions,
                    existing_header.partitions,
                )
            },
            r is Err <==> (existing_header.partitions matches Some(s) && s@.len()
                != partition_names@.len()),
    {
        let has_mismatch = match &existing_header.partitions {
            Some(s) => s.len() != partition_names.len(),
            None => false,
        };
        if has_mismatch {
            return Err(Error::InvalidFormat("partition summary shape".to_owned()));
        }
        let af = match existing_header.added_files_count {
            Some(af) => af,
            None => 0,
        };
        let ar = match existing_header.added_rows_count {
            Some(ar) => ar,
            None => 0,
        };
        let header = ManifestListEntry {
            manifest_path: existing_header.manifest_path,
            manifest_length: 0,
            partition_spec_id: existing_header.partition_spec_id,
            content: existing_header.content,
            sequence_number,
            min_sequence_number: existing_header.min_sequence_number,
            added_snapshot_id: snapshot_id,
            added_files_count: Some(af),
            existing_files_count: existing_header.existing_files_count,
            deleted_files_count: existing_header.deleted_files_count,
            added_rows_count: Some(ar),
            existing_rows_count: existing_header.existing_rows_count,
            deleted_rows_count: existing_header.deleted_rows_count,
            partitions: existing_header.partitions,
        };
        let ghost base = WriterBase { entries: existing_entries@, files: af as int, rows: ar as int };
        let w = ManifestWriter {
            header,
            entries: existing_entries,
            partition_names,
            base: Ghost(base),
        };
        proof {
            assert(w.spec_appended() =~= Seq::<ManifestEntry>::empty());
            assert(w.spec_entries() =~= w.spec_base_entries() + w.spec_appended());
            assert(sum_records(w.spec_appended()) == 0);
        }
        Ok(w)
    }

    /// Append an entry: it joins the manifest's entries, the added
    /// counts grow by one file and the entry's rows, and each partition
    /// summary absorbs the entry's value of its column.  Fails — leaving
    /// the writer unchanged — with `Conversion` when a count would
    /// overflow, and with `Type` when a partition value does not compare
    /// with the recorded bounds.
    pub fn append(&mut self, entry: ManifestEntry) -> (r: Result<(), Error>)
        requires
            old(self).inv(),
            entry.data_file.record_count >= 0,
        ensures
            r is Ok ==> {
                &&& final(self).inv()
                &&& final(self).spec_entries() == old(self).spec_entries().push(entry)
                &&& final(self).spec_appended() == old(self).spec_appended().push(entry)
                &&& final(self).spec_base_entries() == old(self).spec_base_entries()
                &&& final(self).spec_base_files() == old(self).spec_base_files()
                &&& final(self).spec_base_rows() == old(self).spec_base_rows()
                &&& final(self).spec_names() == old(self).spec_names()
                &&& final(self).spec_header().manifest_path@ == old(
                    self,
                ).spec_header().manifest_path@
                &&& final(self).spec_header().manifest_length == old(
                    self,
                ).spec_header().manifest_length
                &&& final(self).spec_header().partition_spec_id == old(
                    self,
                ).spec_header().partition_spec_id
                &&& final(self).spec_header().content == old(self).spec_header().content
                &&& final(self).spec_header().sequence_number == old(
                    self,
                ).spec_header().sequence_number
                &&& final(self).spec_header().min_sequence_number == old(
                    self,
                ).spec_header().min_sequence_number
                &&& final(self).spec_header().added_snapshot_id == old(
                    self,
                ).spec_header().added_snapshot_id
                &&& final(self).spec_header().existing_files_count == old(
                    self,
                ).spec_header().existing_files_count
                &&& final(self).spec_header().deleted_files_count == old(
                    self,
                ).spec_header().deleted_files_count
                &&& final(self).spec_header().existing_rows_count == old(
                    self,
                ).spec_header().existing_rows_count
                &&& final(self).spec_header().deleted_rows_count == old(
                    self,
                ).spec_header().deleted_rows_count
            },
            r is Ok ==> (forall|d: int, value: Option<Value>|
                #![trigger summary_covers_one((old(self).spec_header().partitions->Some_0)@[d], value)]
                (0 <= d < old(self).spec_names().len() && old(self).spec_header().partitions
                    is Some && summary_covers_one(
                    (old(self).spec_header().partitions->Some_0)@[d],
                    value,
                )) ==> (final(self).spec_header().partitions matches Some(s) && d < s@.len()
                    && summary_covers_one(s@[d], value))),
            r is Ok && old(self).spec_names().len() == 0
                ==> crate::manifest_list::partitions_eq(
                final(self).spec_header().partitions,
                old(self).spec_header().partitions,
            ),
            (old(self).spec_header().added_files_count matches Some(af) && af < 0x7fff_ffff
                && (old(self).spec_header().added_rows_count matches Some(ar) && ar
                + entry.data_file.record_count <= 0x7fff_ffff_ffff_ffff)
                && entry_fits_summaries(
                old(self).spec_header().partitions,
                old(self).spec_names(),
                entry,
            )) ==> r is Ok,
            r is Err ==> *final(self) == *old(self),
    {
        let af = match self.header.added_files_count {
            Some(af) => af,
            None => 0,
        };
        let ar = match self.header.added_rows_count {
            Some(ar) => ar,
            None => 0,
        };
        let new_af = match af.checked_add(1) {
            Some(v) => v,
            None => {
                return Err(Error::Conversion("file count".to_owned(), "i32".to_owned()));
            },
        };
        let new_ar = match ar.checked_add(entry.data_file.record_count) {
            Some(v) => v,
            None => {
                return Err(Error::Conversion("row count".to_owned(), "i64".to_owned()));
            },
        };
        let new_partitions: Option<Vec<FieldSummary>> = if self.partition_names.len() == 0 {
            match &self.header.partitions {
                Some(s) => {
                    let c = s.clone();
                    proof {
                        assert(c@ =~= s@);
                    }
                    Some(c)
                },
                None => None,
            }
        } else {
            match self.merged_summaries(&entry) {
                Ok(s) => Some(s),
                Err(e) => {
                    return Err(e);
                },
            }
        };
        let ghost old_self = *self;
        self.header.added_files_count = Some(new_af);
        self.header.added_rows_count = Some(new_ar);
        self.header.partitions = new_partitions;
        self.entries.push(entry);
        proof {
            assert(self.spec_appended() =~= old_self.spec_appended().push(entry));
            assert(self.spec_entries() =~= self.spec_base_entries() + self.spec_appended());
            lemma_sum_records_push(old_self.spec_appended(), entry);
            assert forall|k: int, d: int|
                0 <= k < self.spec_appended().len() && 0 <= d
                    < self.spec_names().len() implies (self.spec_header().partitions matches Some(
                s,
            ) && d < s@.len() && summary_covers_one(
                s@[d],
                struct_value(
                    (#[trigger] self.spec_appended()[k]).data_file.partition,
                    (#[trigger] self.spec_names()[d])@,
                ),
            )) by {
                if k < old_self.spec_appended().len() {
                    assert(self.spec_appended()[k] == old_self.spec_appended()[k]);
                }
            }
        }
        Ok(())
    }

    /// The summaries after absorbing one entry's partition values, the
    /// recorded bounds widened where the entry lies outside them; the
    /// covering of previously absorbed values is kept.
    fn merged_summaries(&self, entry: &ManifestEntry) -> (r: Result<Vec<FieldSummary>, Error>)
        requires
            self.inv(),
            self.spec_names().len() > 0,
        ensures
            r matches Ok(s) ==> {
                &&& s@.len() == self.spec_names().len()
                &&& forall|d: int|
                    0 <= d < self.spec_names().len() ==> summary_covers_one(
                        s@[d],
                        struct_value(entry.data_file.partition, (#[trigger] self.spec_names()[d])@),
                    )
                &&& forall|d: int, value: Option<Value>|
                    #![trigger summary_covers_one(s@[d], value)]
                    0 <= d < self.spec_names().len() && (self.spec_header().partitions matches Some(
                        os,
                    ) && summary_covers_one(os@[d], value)) ==> summary_covers_one(s@[d], value)
            },
            entry_fits_summaries(self.spec_header().partitions, self.spec_names(), *entry)
                ==> r is Ok,
    {
        let n = self.partition_names.len();
        let mut out: Vec<FieldSummary> = Vec::new();
        let mut d: usize = 0;
        while d < n
            invariant
                d <= n,
                n == self.spec_names().len(),
                self.inv(),
                out@.len() == d as int,
                forall|j: int|
                    0 <= j < d ==> summary_covers_one(
                        out@[j],
                        struct_value(entry.data_file.partition, (#[trigger] self.spec_names()[j])@),
                    ),
                forall|j: int, value: Option<Value>|
                    #![trigger summary_covers_one(out@[j], value)]
                    0 <= j < d && (self.spec_header().partitions matches Some(os)
                        && summary_covers_one(os@[j], value)) ==> summary_covers_one(
                        out@[j],
                        value,
                    ),
            decreases n - d,
        {
            let seed: FieldSummary = match &self.header.partitions {
                Some(s) => s[d].clone(),
                None => FieldSummary {
                    contains_null: false,
                    contains_nan: None,
                    lower_bound: None,
                    upper_bound: None,
                },
            };
            let value_idx = entry.data_file.partition.find(&self.partition_names[d]);
            proof {
                crate::search::lemma_first_where_props(
                    entry.data_file.partition.fields@,
                    crate::values::field_named(self.spec_names()[d as int]@),
                );
            }
            let value: Option<&Value> = match value_idx {
                Some(i) => match &entry.data_file.partition.fields[i].value {
                    Some(v) => Some(v),
                    None => None,
                },
                None => None,
            };
            proof {
                match value {
                    Some(v) => {
                        assert(struct_value(
                            entry.data_file.partition,
                            self.spec_names()[d as int]@,
                        ) == Some(*v));
                    },
                    None => {
                        assert(struct_value(
                            entry.data_file.partition,
                            self.spec_names()[d as int]@,
                        ) is None);
                    },
                }
            }
            let merged: FieldSummary = match value {
                None => FieldSummary {
                    contains_null: true,
                    contains_nan: seed.contains_nan,
                    lower_bound: seed.lower_bound,
                    upper_bound: seed.upper_bound,
                },
                Some(v) => {
                    let new_lower: Option<Value> = match &seed.lower_bound {
                        None => Some(v.clone()),
                        Some(lo) => match v.compare(lo) {
                            Ok(o) => {
                                if matches!(o, core::cmp::Ordering::Less) {
                                    proof {
                                        lemma_val_asym(*v, *lo);
                                    }
                                    Some(v.clone())
                                } else {
                                    Some(lo.clone())
                                }
                            },
                            Err(e) => {
                                proof {
                                    assert(!entry_fits_summaries(
                                        self.spec_header().partitions,
                                        self.spec_names(),
                                        *entry,
                                    ));
                                }
                                return Err(e);
                            },
                        },
                    };
                    let new_upper: Option<Value> = match &seed.upper_bound {
                        None => Some(v.clone()),
                        Some(hi) => match v.compare(hi) {
                            Ok(o) => {
                                if matches!(o, core::cmp::Ordering::Greater) {
                                    proof {
                                        lemma_val_asym(*hi, *v);
                                    }
                                    Some(v.clone())
                                } else {
                                    Some(hi.clone())
                                }
                            },
                            Err(e) => {
                                proof {
                                    assert(!entry_fits_summaries(
                                        self.spec_header().partitions,
                                        self.spec_names(),
                                        *entry,
                                    ));
                                }
                                return Err(e);
                            },
                        },
                    };
                    FieldSummary {
                        contains_null: seed.contains_null,
                        contains_nan: seed.contains_nan,
                        lower_bound: new_lower,
                        upper_bound: new_upper,
                    }
                },
            };
            proof {
                let sv = struct_value(entry.data_file.partition, self.spec_names()[d as int]@);
                // the merged summary covers the entry's own component
                match sv {
                    None => {
                        assert(merged.contains_null);
                    },
                    Some(v) => {
                        assert(summary_covers_one(merged, Some(v)));
                    },
                }
                // and keeps covering whatever the seed covered
                assert forall|value: Option<Value>|
                    summary_covers_one(seed, value) implies summary_covers_one(merged, value) by {
                    match value {
                        None => {},
                        Some(x) => {
                            let lo = seed.lower_bound->Some_0;
                            let hi = seed.upper_bound->Some_0;
                            if merged.lower_bound != seed.lower_bound {
                                let v = merged.lower_bound->Some_0;
                                lemma_val_lt_le_trans(v, lo, x);
                            }
                            if merged.upper_bound != seed.upper_bound {
                                let v = merged.upper_bound->Some_0;
                                crate::values::lemma_val_le_lt_trans(x, hi, v);
                            }
                        },
                    }
                }
            }
            out.push(merged);
            d = d + 1;
        }
        Ok(out)
    }

    /// Hand back the header and the manifest's entries.
    pub fn finish(self) -> (r: (ManifestListEntry, Vec<ManifestEntry>))
        ensures
            r.0 == self.spec_header(),
            r.1@ == self.spec_entries(),
    {
        (self.header, self.entries)
    }
}

} // verus!
