//! The operations of a table transaction, and their execution against a
//! table-metadata snapshot: each operation turns into the manifests and
//! manifest list to write and the requirements and updates to submit.
//!
//! Reading and writing blobs is the embedding application's part: an
//! `Append` that must look inside an existing manifest pauses as a
//! [`PendingAppend`] naming the blob to fetch, and resumes once its
//! decoded entries are handed back.

use vstd::prelude::*;

use crate::append::{
    paths_of_entries, paths_of_groups, select_manifest, split_datafiles, groups_multiset, files_of,
    sum_added_files,
};
use crate::commit::{TableRequirement, TableUpdate};
use crate::error::Error;
use crate::manifest::{
    records_nonneg, sum_records, summaries_bound, DataFile, ManifestEntry, ManifestWriter, Status,
};
use crate::manifest_list::{ManifestListEntry, ManifestListReader};
use crate::paths::{manifest_list_location, manifest_location};
use crate::rectangle::Rectangle;
use crate::schema::Schema;
use crate::snapshot::{generate_snapshot_id, Snapshot, SnapshotReference, SnapshotRetention, Summary};
use crate::table_metadata::TableMetadata;
use crate::values::{partition_struct_to_vec, Value};

verus! {

/// The smallest number of data files a manifest is sized for.
pub const MIN_DATAFILES: u64 = 4;

/// A table operation, to be executed against the table's metadata.
#[derive(Debug)]
pub enum Operation {
    /// Add a schema.
    AddSchema(Schema),
    /// Set the default partition spec.
    SetDefaultSpec(i32),
    /// Set table properties.
    UpdateProperties(Vec<(String, String)>),
    /// Point a named reference at a snapshot.
    SetSnapshotRef((String, SnapshotReference)),
    /// Append new files to the table.
    Append {
        /// The branch appended to; the main branch when absent.
        branch: Option<String>,
        /// The files to append.
        files: Vec<DataFile>,
        /// Extra snapshot-summary annotations.
        additional_summary: Option<Vec<(String, String)>>,
    },
    /// Replace the table's content with the given files.
    Rewrite {
        /// The branch rewritten; the main branch when absent.
        branch: Option<String>,
        /// The files that make up the new content.
        files: Vec<DataFile>,
        /// Extra snapshot-summary annotations.
        additional_summary: Option<Vec<(String, String)>>,
    },
}

/// One manifest file to be written: its header and its entries.  The
/// header's `manifest_length` is zero until the embedding application
/// has serialized the entries and learned the byte count.
#[derive(Debug)]
pub struct ManifestPlan {
    /// The manifest-list entry describing the manifest.
    pub header: ManifestListEntry,
    /// The manifest's entries.
    pub entries: Vec<ManifestEntry>,
}

/// Everything one executed operation asks of the outside world: blobs to
/// write, and the requirements and updates to submit to the catalog.
#[derive(Debug)]
pub struct OperationPlan {
    /// The id of the snapshot the plan creates, if it creates one.
    pub snapshot_id: i64,
    /// The sequence number of the created snapshot.
    pub snapshot_sequence: i64,
    /// How many split rounds sized the new manifests.
    pub n_splits: u32,
    /// Where the manifest list goes, if one is written.
    pub manifest_list_path: Option<String>,
    /// Manifest-list entries carried over from the previous snapshot.
    pub carried: Vec<ManifestListEntry>,
    /// The manifests to write.
    pub new_manifests: Vec<ManifestPlan>,
    /// The precondition the catalog must verify, if any.
    pub requirement: Option<TableRequirement>,
    /// The updates the catalog applies.
    pub updates: Vec<TableUpdate>,
    /// The partition column names the manifests' summaries are kept for.
    pub partition_names: Vec<String>,
}

/// An `Append` that has elected a manifest to extend and waits for that
/// manifest's decoded entries.
#[derive(Debug)]
pub struct PendingAppend {
    /// The header of the elected manifest.
    pub selected: ManifestListEntry,
    /// The entries to append, already stamped with the new snapshot.
    pub new_entries: Vec<ManifestEntry>,
    /// Manifest-list entries passed through unselected.
    pub carried: Vec<ManifestListEntry>,
    /// How many times the combined entries must be split.
    pub n_splits: u32,
    /// The bounds of the combined entries.
    pub bounds: Rectangle,
    /// The bounding rectangle of the incoming batch alone.
    pub batch_bounds: Rectangle,
    /// The partition column names.
    pub partition_names: Vec<String>,
    /// The table's base location.
    pub location: String,
    /// The random name component of this snapshot's artifacts.
    pub snapshot_uuid: String,
    /// The id of the snapshot being created.
    pub snapshot_id: i64,
    /// The sequence number stamped on new entries.
    pub sequence_number: i64,
    /// The sequence number of the snapshot being created.
    pub snapshot_sequence: i64,
    /// The branch name the snapshot commits to.
    pub branch_name: String,
    /// The snapshot the branch pointed at.
    pub old_snapshot_id: i64,
    /// The id of the schema the snapshot records.
    pub schema_id: i32,
    /// The partition spec id stamped on new manifests.
    pub partition_spec_id: i32,
    /// Extra snapshot-summary annotations.
    pub additional_summary: Option<Vec<(String, String)>>,
}

/// What executing an operation came to: a finished plan, or a pause for
/// one manifest's entries.
#[derive(Debug)]
pub enum ExecuteOutcome {
    /// The plan is complete.
    Done(OperationPlan),
    /// The elected manifest's entries are needed; fetch the blob at
    /// `selected.manifest_path` and resume.
    NeedsManifest(PendingAppend),
}

/// The floor of the square root.
pub open spec fn is_isqrt(s: int, n: int) -> bool {
    0 <= s && s * s <= n && (s + 1) * (s + 1) > n
}

/// The floor of the base-two logarithm.
pub open spec fn spec_ilog2(n: int) -> int
    decreases n,
{
    if n < 2 {
        0
    } else {
        1 + spec_ilog2(n / 2)
    }
}

/// How many split rounds a group of `new_file_count` files needs so that
/// about `limit` files land in each manifest.
pub open spec fn spec_splits(new_file_count: int, limit: int) -> int
    recommends
        limit >= 1,
{
    if new_file_count / limit == 0 {
        0
    } else {
        spec_ilog2(new_file_count / limit) + 1
    }
}

/// Whether a batch of `n` files escapes splitting under the sizing
/// rule: `n` is below `MIN_DATAFILES` plus the square root of `n`.
pub open spec fn fits_single_manifest(n: int) -> bool {
    forall|s: int| is_isqrt(s, n) ==> n / (MIN_DATAFILES as int + s) == 0
}

/// The total row count of a batch of files.
pub open spec fn sum_file_records(files: Seq<DataFile>) -> int
    decreases files.len(),
{
    if files.len() == 0 {
        0
    } else {
        files[0].record_count + sum_file_records(files.skip(1))
    }
}

/// Stamping a batch into entries keeps its total row count.
proof fn lemma_sum_stamped(files: Seq<DataFile>, snapshot_id: i64, sequence_number: i64)
    ensures
        sum_records(stamped_entries(files, snapshot_id, sequence_number)) == sum_file_records(
            files,
        ),
    decreases files.len(),
{
    if files.len() != 0 {
        let st = stamped_entries(files, snapshot_id, sequence_number);
        assert(st[0].data_file == files[0]);
        assert(st.skip(1) =~= stamped_entries(files.skip(1), snapshot_id, sequence_number));
        lemma_sum_stamped(files.skip(1), snapshot_id, sequence_number);
    }
}

/// The floor of the square root of `n`.
fn isqrt_u64(n: u64) -> (r: u64)
    ensures
        is_isqrt(r as int, n as int),
        r < 0x1_0000_0000,
{
    let mut r: u64 = 0;
    while next_square_fits(r, n)
        invariant
            r <= n,
            r < 0x1_0000_0000,
            (r as int) * (r as int) <= n as int,
        decreases n - r,
    {
        proof {
            assert(r as int + 1 <= n as int) by (nonlinear_arith)
                requires
                    (r as int + 1) * (r as int + 1) <= n as int,
                    r >= 0,
            ;
            assert(r as int + 1 < 0x1_0000_0000) by (nonlinear_arith)
                requires
                    (r as int + 1) * (r as int + 1) <= n as int,
                    n < 0x1_0000_0000_0000_0000,
                    r >= 0,
            ;
        }
        r = r + 1;
    }
    r
}

/// Whether the square of `r + 1` still fits under `n`.
fn next_square_fits(r: u64, n: u64) -> (b: bool)
    requires
        r < 0x1_0000_0000,
    ensures
        b == ((r as int + 1) * (r as int + 1) <= n as int),
{
    let c: u128 = (r as u128) + 1;
    proof {
        assert(c * c <= 0x1_0000_0000_0000_0000) by (nonlinear_arith)
            requires
                1 <= c <= 0x1_0000_0000,
        ;
    }
    c * c <= n as u128
}

/// The floor of the base-two logarithm of `n`.
fn ilog2_u64(n: u64) -> (r: u32)
    requires
        n >= 1,
    ensures
        r as int == spec_ilog2(n as int),
        r < 64,
{
    let mut m: u64 = n;
    let mut r: u32 = 0;
    proof {
        vstd::arithmetic::power2::lemma2_to64();
        assert(vstd::arithmetic::power2::pow2(0) * (n as nat) == n as nat);
    }
    while m >= 2
        invariant
            m >= 1,
            r < 64,
            spec_ilog2(n as int) == r + spec_ilog2(m as int),
            vstd::arithmetic::power2::pow2(r as nat) * m <= n as nat,
        decreases m,
    {
        proof {
            vstd::arithmetic::power2::lemma_pow2_unfold((r + 1) as nat);
            let p = vstd::arithmetic::power2::pow2(r as nat) as int;
            let q = vstd::arithmetic::power2::pow2((r + 1) as nat) as int;
            assert(q * ((m as int) / 2) <= p * (m as int)) by (nonlinear_arith)
                requires
                    q == 2 * p,
                    p >= 0,
                    m >= 2,
            ;
        }
        m = m / 2;
        r = r + 1;
        proof {
            if r >= 64 {
                vstd::arithmetic::power2::lemma2_to64();
                if (r as nat) > 64 {
                    vstd::arithmetic::power2::lemma_pow2_strictly_increases(64, r as nat);
                }
                let pr = vstd::arithmetic::power2::pow2(r as nat) as int;
                assert(pr * (m as int) >= pr) by (nonlinear_arith)
                    requires
                        m >= 1,
                        pr >= 0,
                ;
                assert(false);
            }
        }
    }
    r
}

/// The bounding rectangle of the files' partition tuples, projected on
/// the partition column names.  Fails with `NotFound` on an empty batch
/// or a missing or null partition value, and with `Type` on values of
/// mixed type.
/// The value file `i` of a batch projects on partition column `j`.
pub open spec fn projected(files: Seq<DataFile>, names: Seq<String>, i: int, j: int) -> Option<
    Value,
> {
    crate::values::struct_value(files[i].partition, names[j]@)
}

/// Whether a batch projects cleanly on the partition columns: every
/// file carries a value for every column, of the first file's type.
pub open spec fn batch_projectable(files: Seq<DataFile>, names: Seq<String>) -> bool {
    forall|i: int, j: int|
        0 <= i < files.len() && 0 <= j < names.len() ==> (#[trigger] projected(files, names, i, j)
            matches Some(v) && (projected(files, names, 0, j) matches Some(w)
            && crate::values::comparable(w, v)))
}

pub fn bounding_rect(files: &Vec<DataFile>, names: &Vec<String>) -> (r: Result<Rectangle, Error>)
    ensures
        r is Ok <==> files@.len() > 0 && batch_projectable(files@, names@),
        r matches Ok(rect) ==> rect.spec_dims() == names@.len(),
{
    let n = files.len();
    if n == 0 {
        return Err(Error::NotFound("Bounding".to_owned(), "rectangle".to_owned()));
    }
    let first = match partition_struct_to_vec(files[0].partition(), names) {
        Ok(v) => v,
        Err(e) => {
            proof {
                let j = choose|j: int|
                    0 <= j < names@.len() && crate::values::struct_value(
                        files@[0].partition,
                        names@[j]@,
                    ) is None;
                assert(projected(files@, names@, 0, j) is None);
                assert(!batch_projectable(files@, names@));
            }
            return Err(e);
        },
    };
    let ghost first_vals = first@;
    proof {
        assert forall|j: int| 0 <= j < names@.len() implies projected(files@, names@, 0, j)
            == Some(first_vals[j]) by {}
    }
    let mut rect = Rectangle::degenerate(first);
    let mut i: usize = 1;
    while i < n
        invariant
            1 <= i <= n,
            n == files@.len(),
            rect.spec_dims() == names@.len(),
            first_vals.len() == names@.len(),
            forall|j: int|
                0 <= j < names@.len() ==> projected(files@, names@, 0, j) == Some(
                    #[trigger] first_vals[j],
                ),
            forall|j: int|
                0 <= j < names@.len() ==> crate::values::comparable(
                    #[trigger] first_vals[j],
                    rect.mins()[j],
                ),
            forall|k: int, j: int|
                0 <= k < i && 0 <= j < names@.len() ==> (#[trigger] projected(files@, names@, k, j)
                    matches Some(v) && crate::values::comparable(first_vals[j], v)),
        decreases n - i,
    {
        let node = match partition_struct_to_vec(files[i].partition(), names) {
            Ok(v) => v,
            Err(e) => {
                proof {
                    let j = choose|j: int|
                        0 <= j < names@.len() && crate::values::struct_value(
                            files@[i as int].partition,
                            names@[j]@,
                        ) is None;
                    assert(projected(files@, names@, i as int, j) is None);
                    assert(!batch_projectable(files@, names@));
                }
                return Err(e);
            },
        };
        let ghost pre = rect;
        match rect.expand_with_node(&node) {
            Ok(()) => {
                proof {
                    assert forall|j: int| 0 <= j < names@.len() implies crate::values::comparable(
                        #[trigger] first_vals[j],
                        rect.mins()[j],
                    ) by {
                        assert(rect.mins()[j] == crate::values::val_min(
                            pre.mins()[j],
                            node@[j],
                        ));
                    }
                    assert forall|k: int, j: int|
                        0 <= k < i + 1 && 0 <= j < names@.len() implies (#[trigger] projected(
                        files@,
                        names@,
                        k,
                        j,
                    ) matches Some(v) && crate::values::comparable(first_vals[j], v)) by {
                        if k == i as int {
                            assert(projected(files@, names@, k, j) == Some(node@[j]));
                            assert(crate::values::comparable(pre.mins()[j], node@[j]));
                        }
                    }
                }
            },
            Err(e) => {
                proof {
                    assert(!(forall|d: int|
                        0 <= d < node@.len() ==> crate::values::comparable(
                            #[trigger] pre.mins()[d],
                            node@[d],
                        )));
                    let d = choose|d: int|
                        !(0 <= d < node@.len() ==> crate::values::comparable(
                            pre.mins()[d],
                            node@[d],
                        ));
                    assert(projected(files@, names@, i as int, d) == Some(node@[d]));
                    assert(!crate::values::comparable(first_vals[d], node@[d]));
                    assert(!batch_projectable(files@, names@));
                }
                return Err(e);
            },
        }
        i = i + 1;
    }
    Ok(rect)
}

/// Whether every entry of a run is a fresh entry of the given snapshot:
/// status `Added`, stamped with its id and sequence number.
pub open spec fn all_added(s: Seq<ManifestEntry>, snapshot_id: i64, sequence_number: i64) -> bool {
    forall|i: int|
        0 <= i < s.len() ==> {
            let e = #[trigger] s[i];
            &&& e.status == Status::Added
            &&& e.snapshot_id == Some(snapshot_id)
            &&& e.sequence_number == Some(sequence_number)
        }
}

/// The data-file locations of a batch of files, as a multiset.
pub open spec fn paths_of_files(s: Seq<DataFile>) -> vstd::multiset::Multiset<Seq<char>>
    decreases s.len(),
{
    if s.len() == 0 {
        vstd::multiset::Multiset::empty()
    } else {
        paths_of_files(s.drop_last()).insert(s.last().file_path@)
    }
}

/// The manifest entries a batch of files turns into: each file stamped
/// `Added` with the new snapshot's id and sequence number, in order.
pub open spec fn stamped_entries(
    files: Seq<DataFile>,
    snapshot_id: i64,
    sequence_number: i64,
) -> Seq<ManifestEntry> {
    Seq::new(
        files.len(),
        |i: int|
            ManifestEntry {
                status: Status::Added,
                snapshot_id: Some(snapshot_id),
                sequence_number: Some(sequence_number),
                data_file: files[i],
            },
    )
}

/// Manifest entries for a batch of files, stamped `Added` with the new
/// snapshot's id and sequence number.
fn build_new_entries(files: Vec<DataFile>, snapshot_id: i64, sequence_number: i64) -> (r: Vec<
    ManifestEntry,
>)
    ensures
        r@ == stamped_entries(files@, snapshot_id, sequence_number),
        r@.len() == files@.len(),
        forall|i: int| 0 <= i < r@.len() ==> (#[trigger] r@[i]).data_file == files@[i],
        all_added(r@, snapshot_id, sequence_number),
        paths_of_entries(r@) == paths_of_files(files@),
{
    let ghost input = files@;
    let mut files = files;
    let mut out: Vec<ManifestEntry> = Vec::new();
    let n = files.len();
    let mut i: usize = 0;
    while i < n
        invariant
            i <= n,
            n == input.len(),
            files@ =~= input.skip(i as int),
            out@.len() == i as int,
            forall|j: int| 0 <= j < i ==> (#[trigger] out@[j]).data_file == input[j],
            all_added(out@, snapshot_id, sequence_number),
            paths_of_entries(out@) == paths_of_files(input.take(i as int)),
        decreases n - i,
    {
        let f = files.remove(0);
        proof {
            assert(f == input[i as int]);
            assert(files@ =~= input.skip(i + 1));
            assert(input.take(i + 1).drop_last() =~= input.take(i as int));
            assert(input.take(i + 1).last() == input[i as int]);
        }
        let entry = ManifestEntry {
            status: Status::Added,
            snapshot_id: Some(snapshot_id),
            sequence_number: Some(sequence_number),
            data_file: f,
        };
        let ghost prev_out = out@;
        out.push(entry);
        proof {
            assert(out@.drop_last() =~= prev_out);
            assert(out@.last() == entry);
        }
        i = i + 1;
    }
    proof {
        assert(input.take(n as int) =~= input);
        assert(out@ =~= stamped_entries(input, snapshot_id, sequence_number));
    }
    out
}

/// Whether every record count of a run of entries is non-negative.
fn entries_records_nonneg(entries: &Vec<ManifestEntry>) -> (r: bool)
    ensures
        r == records_nonneg(entries@),
{
    let n = entries.len();
    let mut i: usize = 0;
    while i < n
        invariant
            i <= n,
            n == entries@.len(),
            forall|j: int| 0 <= j < i ==> (#[trigger] entries@[j]).data_file.record_count >= 0,
        decreases n - i,
    {
        if entries[i].data_file.record_count < 0 {
            return false;
        }
        i = i + 1;
    }
    true
}

/// Whether a written manifest honestly describes its entries: the added
/// counts are exactly its entries and their rows, and the partition
/// summaries cover every entry.
pub open spec fn fresh_manifest_ok(p: ManifestPlan, names: Seq<String>) -> bool {
    &&& p.header.added_files_count matches Some(af) && af as int == p.entries@.len()
    &&& p.header.added_rows_count matches Some(ar) && ar as int == sum_records(p.entries@)
    &&& summaries_bound(p.header.partitions, names, p.entries@)
}

/// The entry groups of a plan's manifests.
pub open spec fn plan_groups(plans: Seq<ManifestPlan>) -> Seq<Vec<ManifestEntry>> {
    plans.map_values(|p: ManifestPlan| p.entries)
}

/// Write one fresh manifest per entry group, at
/// `<location>/metadata/<uuid>-m<index>.avro`.
#[verifier::loop_isolation(false)]
pub(crate) fn write_fresh_groups(
    groups: Vec<Vec<ManifestEntry>>,
    location: &String,
    uuid: &String,
    snapshot_id: i64,
    partition_spec_id: i32,
    sequence_number: i64,
    min_sequence_number: i64,
    partition_names: &Vec<String>,
    start_index: u64,
) -> (r: Result<Vec<ManifestPlan>, Error>)
    ensures
        r matches Ok(plans) ==> {
            &&& plans@.len() == groups@.len()
            &&& groups_multiset(plan_groups(plans@)) == groups_multiset(groups@)
            &&& paths_of_groups(plan_groups(plans@)) == paths_of_groups(groups@)
            &&& forall|i: int| 0 <= i < plans@.len() ==> (#[trigger] plans@[i]).entries@
                == groups@[i]@
            &&& forall|i: int|
                0 <= i < plans@.len() ==> (#[trigger] plans@[i]).header.manifest_path@ == location@
                    + "/metadata/"@ + uuid@ + "-m"@ + crate::paths::dec_str(
                    (start_index + i) as nat,
                ) + ".avro"@
            &&& forall|i: int|
                0 <= i < plans@.len() ==> fresh_manifest_ok(#[trigger] plans@[i], partition_names@)
            &&& forall|i: int|
                0 <= i < plans@.len() ==> (#[trigger] plans@[i]).header.added_snapshot_id
                    == snapshot_id && plans@[i].header.sequence_number == sequence_number
                    && plans@[i].header.partition_spec_id == partition_spec_id
        },
        (partition_names@.len() == 0 && start_index + groups@.len() <= u64::MAX && (forall|i: int|
            0 <= i < groups@.len() ==> records_nonneg((#[trigger] groups@[i])@) && groups@[i]@.len()
                < 0x7fff_ffff && sum_records(groups@[i]@) <= 0x7fff_ffff_ffff_ffff)) ==> r is Ok,
{
    let ghost input = groups@;
    let mut groups = groups;
    let mut plans: Vec<ManifestPlan> = Vec::new();
    let n = groups.len();
    let mut index: usize = 0;
    while index < n
        invariant
            index <= n,
            n == input.len(),
            groups@ =~= input.skip(index as int),
            plans@.len() == index as int,
            forall|i: int| 0 <= i < index ==> (#[trigger] plans@[i]).entries@ == input[i]@,
            forall|i: int|
                0 <= i < index ==> (#[trigger] plans@[i]).header.manifest_path@ == location@
                    + "/metadata/"@ + uuid@ + "-m"@ + crate::paths::dec_str(
                    (start_index + i) as nat,
                ) + ".avro"@,
            forall|i: int|
                0 <= i < index ==> fresh_manifest_ok(#[trigger] plans@[i], partition_names@),
            forall|i: int|
                0 <= i < index ==> (#[trigger] plans@[i]).header.added_snapshot_id == snapshot_id
                    && plans@[i].header.sequence_number == sequence_number
                    && plans@[i].header.partition_spec_id == partition_spec_id,
        decreases n - index,
    {
        let group = groups.remove(0);
        proof {
            assert(group == input[index as int]);
            assert(groups@ =~= input.skip(index as int + 1));
        }
        if !entries_records_nonneg(&group) {
            proof {
                assert(!records_nonneg(input[index as int]@));
            }
            return Err(Error::InvalidFormat("record count".to_owned()));
        }
        let numbered = match start_index.checked_add(index as u64) {
            Some(v) => v,
            None => {
                proof {
                    assert(start_index + input.len() > u64::MAX || !(index < n)) by {
                        if start_index + input.len() <= u64::MAX {
                            assert(start_index + index < start_index + input.len());
                        }
                    }
                }
                return Err(Error::Conversion("manifest index".to_owned(), "u64".to_owned()));
            },
        };
        let path = manifest_location(location, uuid, numbered);
        let mut writer = ManifestWriter::new(
            path,
            snapshot_id,
            partition_spec_id,
            sequence_number,
            min_sequence_number,
            clone_names(partition_names),
        );
        let ghost group_view = group@;
        let mut group = group;
        let mut k: usize = 0;
        let m = group.len();
        while k < m
            invariant
                k <= m,
                m == group_view.len(),
                group@ =~= group_view.skip(k as int),
                writer.inv(),
                records_nonneg(group_view),
                writer.spec_entries() == group_view.take(k as int),
                writer.spec_appended() == group_view.take(k as int),
                writer.spec_base_entries().len() == 0,
                writer.spec_base_files() == 0,
                writer.spec_base_rows() == 0,
                writer.spec_names() == partition_names@,
                writer.spec_header().added_snapshot_id == snapshot_id,
                writer.spec_header().sequence_number == sequence_number,
                writer.spec_header().partition_spec_id == partition_spec_id,
                writer.spec_header().manifest_path@ == location@ + "/metadata/"@ + uuid@ + "-m"@
                    + crate::paths::dec_str((start_index + index) as nat) + ".avro"@,
            decreases m - k,
        {
            let e = group.remove(0);
            proof {
                assert(e == group_view[k as int]);
                assert(group@ =~= group_view.skip(k as int + 1));
            }
            match writer.append(e) {
                Ok(()) => {},
                Err(err) => {
                    proof {
                        if partition_names@.len() == 0 && records_nonneg(group_view)
                            && group_view.len() < 0x7fff_ffff && sum_records(group_view)
                            <= 0x7fff_ffff_ffff_ffff {
                            // under these bounds an unpartitioned append
                            // cannot fail
                            assert(group_view.take(k as int + 1) =~= group_view.take(
                                k as int,
                            ).push(group_view[k as int]));
                            crate::manifest::lemma_sum_records_push(
                                group_view.take(k as int),
                                group_view[k as int],
                            );
                            crate::manifest::lemma_sum_records_bounds(group_view, k as int + 1);
                            assert(false);
                        }
                    }
                    return Err(err);
                },
            }
            proof {
                assert(writer.spec_entries() =~= group_view.take(k as int + 1));
            }
            k = k + 1;
        }
        proof {
            assert(group_view.take(m as int) =~= group_view);
        }
        let (header, entries) = writer.finish();
        let plan = ManifestPlan { header, entries };
        plans.push(plan);
        index = index + 1;
    }
    proof {
        assert forall|i: int| 0 <= i < plan_groups(plans@).len() implies (#[trigger] plan_groups(
            plans@,
        )[i])@ == input[i]@ by {
            assert(plan_groups(plans@)[i] == plans@[i].entries);
        }
        lemma_same_groups(plan_groups(plans@), input);
    }
    Ok(plans)
}

/// Group lists with pointwise equal contents have equal entry and path
/// multisets.
proof fn lemma_same_groups(a: Seq<Vec<ManifestEntry>>, b: Seq<Vec<ManifestEntry>>)
    requires
        a.len() == b.len(),
        forall|i: int| 0 <= i < a.len() ==> (#[trigger] a[i])@ == b[i]@,
    ensures
        groups_multiset(a) == groups_multiset(b),
        paths_of_groups(a) == paths_of_groups(b),
    decreases a.len(),
{
    if a.len() != 0 {
        assert(a[0]@ == b[0]@);
        assert forall|i: int| 0 <= i < a.skip(1).len() implies (#[trigger] a.skip(1)[i])@ == b.skip(
            1,
        )[i]@ by {
            assert(a.skip(1)[i] == a[i + 1]);
            assert(b.skip(1)[i] == b[i + 1]);
        }
        lemma_same_groups(a.skip(1), b.skip(1));
    }
}

/// The name of the branch an operation commits to.
pub open spec fn branch_name_of(branch: Option<String>) -> Seq<char> {
    match branch {
        Some(b) => b@,
        None => "main"@,
    }
}

/// Whether every record count of a batch of files is non-negative.
pub open spec fn files_nonneg(files: Seq<DataFile>) -> bool {
    forall|i: int| 0 <= i < files.len() ==> (#[trigger] files[i]).record_count >= 0
}

/// What execution asks of an operation's input: appended and rewritten
/// files carry non-negative row counts.
pub open spec fn files_ok(op: Operation) -> bool {
    match op {
        Operation::Append { files, .. } => files_nonneg(files@),
        Operation::Rewrite { files, .. } => files_nonneg(files@),
        _ => true,
    }
}

/// The default retention of a fresh branch reference.
pub open spec fn default_retention() -> SnapshotRetention {
    SnapshotRetention::Branch {
        min_snapshots_to_keep: None,
        max_snapshot_age_ms: None,
        max_ref_age_ms: None,
    }
}

/// Whether a plan commits one snapshot: an `AddSnapshot` at `at` and a
/// `SetSnapshotRef` pointing the branch at it, closing the updates.
pub open spec fn plan_commits_snapshot(
    plan: OperationPlan,
    at: int,
    branch: Seq<char>,
    extra: Option<Vec<(String, String)>>,
) -> bool {
    &&& plan.updates@.len() == at + 2
    &&& (plan.updates@[at] matches TableUpdate::AddSnapshot { snapshot } && {
        &&& snapshot.snapshot_id == plan.snapshot_id
        &&& snapshot.sequence_number == plan.snapshot_sequence
        &&& snapshot.summary.operation == crate::snapshot::Operation::Append
        &&& (match extra {
            Some(e) => snapshot.summary.other@ == e@,
            None => snapshot.summary.other@.len() == 0,
        })
        &&& (plan.manifest_list_path matches Some(p) && snapshot.manifest_list@ == p@)
    })
    &&& (plan.updates@[at + 1] matches TableUpdate::SetSnapshotRef {
        ref_name,
        snapshot_reference,
    } && {
        &&& ref_name@ == branch
        &&& snapshot_reference.snapshot_id == plan.snapshot_id
        &&& snapshot_reference.retention == default_retention()
    })
}

/// Whether a plan carries the optimistic requirement for the snapshot
/// the branch pointed at, or none where there was none.
pub open spec fn plan_requirement_ok(
    plan: OperationPlan,
    branch: Seq<char>,
    old: Option<Snapshot>,
) -> bool {
    match old {
        Some(s) => plan.requirement matches Some(req) && (req
            matches TableRequirement::AssertRefSnapshotId { ref_name, snapshot_id } && ref_name@
            == branch && snapshot_id == s.snapshot_id),
        None => plan.requirement is None,
    }
}

/// Whether every new manifest of a plan honestly describes its entries
/// and is stamped with the new snapshot.
pub open spec fn plan_manifests_ok(plan: OperationPlan, sequence_number: i64) -> bool {
    forall|i: int|
        0 <= i < plan.new_manifests@.len() ==> {
            let p = #[trigger] plan.new_manifests@[i];
            &&& fresh_manifest_ok(p, plan.partition_names@)
            &&& p.header.added_snapshot_id == plan.snapshot_id
            &&& p.header.sequence_number == sequence_number
        }
}

/// Whether `n` is the split depth the sizing heuristic assigns to
/// `new_file_count` files against a pool of `pool` observed files.
pub open spec fn splits_assigned(n: u32, new_file_count: int, pool: int) -> bool {
    exists|s: int|
        is_isqrt(s, pool) && n as int == spec_splits(new_file_count, MIN_DATAFILES as int + s)
}

impl Operation {
    /// The blob an execution must read first: the manifest list of the
    /// appended-to branch's current snapshot, where there is one.
    pub fn manifest_list_to_read(&self, table_metadata: &TableMetadata) -> (r: Result<
        Option<String>,
        Error,
    >)
        ensures
            r matches Ok(Some(p)) ==> match *self {
                Operation::Append { branch, files, .. } => {
                    &&& files@.len() > 0
                    &&& table_metadata.spec_resolved_snapshot_id(spec_branch_view(branch))
                        matches Some(id)
                    &&& table_metadata.spec_snapshot_by_id(id) matches Some(s) && p@
                        == s.manifest_list@
                },
                _ => false,
            },
            r matches Ok(None{}) ==> match *self {
                Operation::Append { branch, files, .. } => files@.len() == 0
                    || table_metadata.spec_resolved_snapshot_id(spec_branch_view(branch)) is None,
                _ => true,
            },
    {
        match self {
            Operation::Append { branch, files, .. } => {
                if files.len() == 0 {
                    // an empty batch fails before anything is read
                    return Ok(None);
                }
                let snap = table_metadata.current_snapshot(branch.as_ref())?;
                match snap {
                    Some(s) => Ok(Some(s.manifest_list().clone())),
                    None => Ok(None),
                }
            },
            _ => Ok(None),
        }
    }

    /// Execute the operation against a table-metadata snapshot.
    ///
    /// Metadata-only operations finish immediately.  A `Rewrite`
    /// finishes immediately too, disregarding existing manifests.  An
    /// `Append` on a branch with a current snapshot must be given that
    /// snapshot's decoded manifest list and pauses as `NeedsManifest`
    /// once it has elected the manifest to extend.
    pub fn execute(self, table_metadata: &TableMetadata, manifest_list: Option<
        Vec<ManifestListEntry>,
    >) -> (r: Result<ExecuteOutcome, Error>)
        requires
            table_metadata.wf(),
            files_ok(self),
        ensures
            r matches Ok(ExecuteOutcome::Done(plan)) ==> match self {
                Operation::AddSchema(schema) => {
                    &&& plan.updates@.len() == 1
                    &&& (plan.updates@[0] matches TableUpdate::AddSchema {
                        schema: s,
                        last_column_id,
                    } && s == schema && (last_column_id is Some <==> schema.fields@.len() > 0))
                    &&& plan.requirement is None
                    &&& plan.new_manifests@.len() == 0
                    &&& plan.carried@.len() == 0
                },
                Operation::SetDefaultSpec(spec_id) => {
                    &&& plan.updates@.len() == 1
                    &&& plan.updates@[0] == (TableUpdate::SetDefaultSpec { spec_id })
                    &&& plan.requirement is None
                    &&& plan.new_manifests@.len() == 0
                },
                Operation::UpdateProperties(entries) => {
                    &&& plan.updates@.len() == 1
                    &&& (plan.updates@[0] matches TableUpdate::SetProperties { updates } && updates
                        == entries)
                    &&& plan.requirement is None
                    &&& plan.new_manifests@.len() == 0
                },
                Operation::SetSnapshotRef((name, reference)) => {
                    &&& plan.updates@.len() == 1
                    &&& (plan.updates@[0] matches TableUpdate::SetSnapshotRef {
                        ref_name,
                        snapshot_reference,
                    } && ref_name == name && snapshot_reference == reference)
                    &&& (match table_metadata.spec_ref_by_name(name@) {
                        Some(existing) => plan.requirement matches Some(req) && (req
                            matches TableRequirement::AssertRefSnapshotId {
                            ref_name,
                            snapshot_id,
                        } && ref_name@ == name@ && snapshot_id == existing.snapshot_id),
                        None => plan.requirement is None,
                    })
                    &&& plan.new_manifests@.len() == 0
                },
                Operation::Append { branch, files, additional_summary } => {
                    &&& table_metadata.spec_resolved_snapshot_id(spec_branch_view(branch)) is None
                    &&& plan.snapshot_id >= 0
                    &&& plan.snapshot_sequence == 0
                    &&& plan_commits_snapshot(plan, 0, branch_name_of(branch), additional_summary)
                    &&& plan.requirement is None
                    &&& plan.carried@.len() == 0
                    &&& plan_manifests_ok(plan, (table_metadata.last_sequence_number + 1) as i64)
                    &&& plan.new_manifests@.len() == vstd::arithmetic::power2::pow2(
                        plan.n_splits as nat,
                    )
                    &&& splits_assigned(plan.n_splits, files@.len() as int, files@.len() as int)
                    &&& paths_of_groups(plan_groups(plan.new_manifests@)) == paths_of_files(files@)
                    &&& groups_multiset(plan_groups(plan.new_manifests@)) == stamped_entries(
                        files@,
                        plan.snapshot_id,
                        (table_metadata.last_sequence_number + 1) as i64,
                    ).to_multiset()
                    &&& plan.n_splits == 0 ==> plan.new_manifests@.len() == 1
                        && plan.new_manifests@[0].entries@ == stamped_entries(
                        files@,
                        plan.snapshot_id,
                        (table_metadata.last_sequence_number + 1) as i64,
                    )
                    &&& forall|i: int|
                        0 <= i < plan.new_manifests@.len() ==> all_added(
                            (#[trigger] plan.new_manifests@[i]).entries@,
                            plan.snapshot_id,
                            (table_metadata.last_sequence_number + 1) as i64,
                        )
                },
                Operation::Rewrite { branch, files, additional_summary } => {
                    &&& plan.snapshot_id >= 0
                    &&& plan.snapshot_sequence == 0
                    &&& plan_commits_snapshot(plan, 1, branch_name_of(branch), additional_summary)
                    &&& (plan.updates@[0] matches TableUpdate::RemoveSnapshots { snapshot_ids } && {
                        &&& snapshot_ids@.len() == table_metadata.snapshots@.len()
                        &&& forall|i: int|
                            0 <= i < snapshot_ids@.len() ==> snapshot_ids@[i] == (
                            #[trigger] table_metadata.snapshots@[i]).snapshot_id
                    })
                    &&& plan_requirement_ok(
                        plan,
                        branch_name_of(branch),
                        match table_metadata.spec_resolved_snapshot_id(
                            crate::operation::spec_branch_view(branch),
                        ) {
                            Some(id) => table_metadata.spec_snapshot_by_id(id),
                            None => None,
                        },
                    )
                    &&& plan.carried@.len() == 0
                    &&& plan_manifests_ok(plan, (table_metadata.last_sequence_number + 1) as i64)
                    &&& plan.new_manifests@.len() == vstd::arithmetic::power2::pow2(
                        plan.n_splits as nat,
                    )
                    &&& splits_assigned(plan.n_splits, files@.len() as int, files@.len() as int)
                    &&& paths_of_groups(plan_groups(plan.new_manifests@)) == paths_of_files(files@)
                    &&& groups_multiset(plan_groups(plan.new_manifests@)) == stamped_entries(
                        files@,
                        plan.snapshot_id,
                        (table_metadata.last_sequence_number + 1) as i64,
                    ).to_multiset()
                    &&& plan.n_splits == 0 ==> plan.new_manifests@.len() == 1
                        && plan.new_manifests@[0].entries@ == stamped_entries(
                        files@,
                        plan.snapshot_id,
                        (table_metadata.last_sequence_number + 1) as i64,
                    )
                },
            },
            r matches Ok(ExecuteOutcome::NeedsManifest(p)) ==> match self {
                Operation::Append { branch, files, additional_summary } => {
                    &&& p.snapshot_id >= 0
                    &&& p.sequence_number as int == table_metadata.last_sequence_number + 1
                    &&& p.branch_name@ == branch_name_of(branch)
                    &&& p.additional_summary == additional_summary
                    &&& (table_metadata.spec_resolved_snapshot_id(spec_branch_view(branch))
                        matches Some(id) && table_metadata.spec_snapshot_by_id(id) matches Some(s)
                        && p.old_snapshot_id == s.snapshot_id && p.snapshot_sequence
                        == s.sequence_number + 1)
                    &&& (table_metadata.spec_spec_by_id(table_metadata.default_spec_id)
                        matches Some(ps) && p.partition_names@.len() == ps.fields@.len() && (forall|
                        i: int,
                    |
                        0 <= i < ps.fields@.len() ==> p.partition_names@[i]@ == (
                        #[trigger] ps.fields@[i]).name@))
                    &&& p.new_entries@.len() == files@.len()
                    &&& (forall|i: int|
                        0 <= i < files@.len() ==> (#[trigger] p.new_entries@[i]).data_file
                            == files@[i])
                    &&& all_added(p.new_entries@, p.snapshot_id, p.sequence_number)
                    &&& paths_of_entries(p.new_entries@) == paths_of_files(files@)
                    &&& records_nonneg(p.new_entries@)
                    &&& (manifest_list matches Some(list) && p.carried@.to_multiset().insert(
                        p.selected,
                    ) == list@.to_multiset())
                    &&& p.partition_names@.len() == 0 ==> (forall|j: int|
                        0 <= j < p.carried@.len() ==> crate::append::rows_key(p.selected)
                            <= crate::append::rows_key(#[trigger] p.carried@[j]))
                    &&& p.partition_names@.len() > 0 ==> crate::append::candidate_ok(
                        p.selected,
                        p.batch_bounds,
                    ) && (forall|j: int|
                        0 <= j < p.carried@.len() ==> crate::append::candidate_ok(
                            #[trigger] p.carried@[j],
                            p.batch_bounds,
                        ) && crate::rectangle::width_le(
                            crate::append::spec_after_widths(p.selected, p.batch_bounds),
                            crate::append::spec_after_widths(p.carried@[j], p.batch_bounds),
                        ))
                    &&& (manifest_list matches Some(list) && splits_assigned(
                        p.n_splits,
                        files_of(p.selected) + files@.len() as int,
                        sum_added_files(list@) + files@.len() as int,
                    ))
                },
                _ => false,
            },
            (match self {
                Operation::AddSchema(..) => r is Ok,
                Operation::SetDefaultSpec(..) => r is Ok,
                Operation::UpdateProperties(..) => r is Ok,
                Operation::SetSnapshotRef(..) => r is Ok,
                _ => true,
            }),
            (match self {
                Operation::Append { files, .. } => files@.len() == 0 ==> r is Err,
                Operation::Rewrite { files, .. } => files@.len() == 0 ==> r is Err,
                _ => true,
            }),
            (match self {
                Operation::Append { branch, files, .. } => (
                table_metadata.spec_resolved_snapshot_id(spec_branch_view(branch)) is None
                    && table_metadata.spec_current_schema(spec_branch_view(branch)) is Some && (
                table_metadata.spec_spec_by_id(table_metadata.default_spec_id) matches Some(ps)
                    && ps.fields@.len() == 0) && files@.len() > 0 && files@.len() < 0x7fff_ffff
                    && fits_single_manifest(files@.len() as int) && sum_file_records(files@)
                    <= 0x7fff_ffff_ffff_ffff) ==> r is Ok,
                Operation::Rewrite { branch, files, .. } => (
                table_metadata.spec_current_schema(spec_branch_view(branch)) is Some && (
                table_metadata.spec_spec_by_id(table_metadata.default_spec_id) matches Some(ps)
                    && ps.fields@.len() == 0) && files@.len() > 0 && files@.len() < 0x7fff_ffff
                    && fits_single_manifest(files@.len() as int) && sum_file_records(files@)
                    <= 0x7fff_ffff_ffff_ffff) ==> r is Ok,
                _ => true,
            }),
    {
        match self {
            Operation::AddSchema(schema) => {
                let last_column_id = schema.max_column_id();
                let mut updates: Vec<TableUpdate> = Vec::new();
                updates.push(TableUpdate::AddSchema { schema, last_column_id });
                Ok(
                    ExecuteOutcome::Done(
                        OperationPlan {
                            snapshot_id: 0,
                            snapshot_sequence: 0,
                            n_splits: 0,
                            manifest_list_path: None,
                            carried: Vec::new(),
                            new_manifests: Vec::new(),
                            requirement: None,
                            updates,
                            partition_names: Vec::new(),
                        },
                    ),
                )
            },
            Operation::SetDefaultSpec(spec_id) => {
                let mut updates: Vec<TableUpdate> = Vec::new();
                updates.push(TableUpdate::SetDefaultSpec { spec_id });
                Ok(
                    ExecuteOutcome::Done(
                        OperationPlan {
                            snapshot_id: 0,
                            snapshot_sequence: 0,
                            n_splits: 0,
                            manifest_list_path: None,
                            carried: Vec::new(),
                            new_manifests: Vec::new(),
                            requirement: None,
                            updates,
                            partition_names: Vec::new(),
                        },
                    ),
                )
            },
            Operation::UpdateProperties(entries) => {
                let mut updates: Vec<TableUpdate> = Vec::new();
                updates.push(TableUpdate::SetProperties { updates: entries });
                Ok(
                    ExecuteOutcome::Done(
                        OperationPlan {
                            snapshot_id: 0,
                            snapshot_sequence: 0,
                            n_splits: 0,
                            manifest_list_path: None,
                            carried: Vec::new(),
                            new_manifests: Vec::new(),
                            requirement: None,
                            updates,
                            partition_names: Vec::new(),
                        },
                    ),
                )
            },
            Operation::SetSnapshotRef((name, reference)) => {
                let requirement = match table_metadata.ref_by_name(&name) {
                    Some(existing) => Some(
                        TableRequirement::AssertRefSnapshotId {
                            ref_name: name.clone(),
                            snapshot_id: existing.snapshot_id,
                        },
                    ),
                    None => None,
                };
                let mut updates: Vec<TableUpdate> = Vec::new();
                updates.push(
                    TableUpdate::SetSnapshotRef { ref_name: name, snapshot_reference: reference },
                );
                Ok(
                    ExecuteOutcome::Done(
                        OperationPlan {
                            snapshot_id: 0,
                            snapshot_sequence: 0,
                            n_splits: 0,
                            manifest_list_path: None,
                            carried: Vec::new(),
                            new_manifests: Vec::new(),
                            requirement,
                            updates,
                            partition_names: Vec::new(),
                        },
                    ),
                )
            },
            Operation::Append { branch, files, additional_summary } => {
                let partition_spec = table_metadata.default_partition_spec()?;
                let spec_id = *partition_spec.spec_id();
                let schema = table_metadata.current_schema(branch.as_ref())?;
                let schema_id = *schema.schema_id();
                let names = partition_spec.field_names();
                let bounding = bounding_rect(&files, &names)?;
                let snapshot_id = generate_snapshot_id();
                let sequence_number = table_metadata.last_sequence_number + 1;
                let uuid = crate::operation::new_uuid_string();
                let branch_name: String = match &branch {
                    Some(b) => b.clone(),
                    None => "main".to_owned(),
                };
                let old = table_metadata.current_snapshot(branch.as_ref())?;
                match old {
                    None => {
                        let total = files.len() as u64;
                        let sq = isqrt_u64(total);
                        let limit = MIN_DATAFILES + sq;
                        let q = total / limit;
                        let n_splits: u32 = if q == 0 {
                            0
                        } else {
                            ilog2_u64(q) + 1
                        };
                        let ghost gfiles = files@;
                        let new_entries = build_new_entries(files, snapshot_id, sequence_number);
                        let ghost gentries = new_entries@;
                        proof {
                            if files_ok(self) && gfiles.len() > 0 && gfiles.len() < 0x7fff_ffff
                                && fits_single_manifest(gfiles.len() as int) && sum_file_records(
                                gfiles,
                            ) <= 0x7fff_ffff_ffff_ffff && names@.len() == 0 {
                                // the sizing rule keeps such a batch whole,
                                // and nothing in writing it can fail
                                assert(is_isqrt(sq as int, gfiles.len() as int));
                                assert(q == 0);
                                assert(n_splits == 0);
                                assert(records_nonneg(gentries)) by {
                                    assert forall|i: int|
                                        0 <= i < gentries.len() implies (#[trigger] gentries[i])
                                        .data_file.record_count >= 0 by {
                                        assert(gentries[i].data_file == gfiles[i]);
                                    }
                                }
                                lemma_sum_stamped(gfiles, snapshot_id, sequence_number);
                            }
                        }
                        let groups = split_datafiles(new_entries, bounding, &names, n_splits)?;
                        let plans = write_fresh_groups(
                            groups,
                            &table_metadata.location,
                            &uuid,
                            snapshot_id,
                            spec_id,
                            sequence_number,
                            table_metadata.last_sequence_number,
                            &names,
                            0,
                        )?;
                        let list_path = manifest_list_location(
                            &table_metadata.location,
                            snapshot_id as u64,
                            &uuid,
                        );
                        let other: Vec<(String, String)> = match additional_summary {
                            Some(v) => v,
                            None => Vec::new(),
                        };
                        let snapshot = Snapshot {
                            snapshot_id,
                            sequence_number: 0,
                            manifest_list: list_path.clone(),
                            schema_id: Some(schema_id),
                            summary: Summary {
                                operation: crate::snapshot::Operation::Append,
                                other,
                            },
                        };
                        let mut updates: Vec<TableUpdate> = Vec::new();
                        updates.push(TableUpdate::AddSnapshot { snapshot });
                        updates.push(
                            TableUpdate::SetSnapshotRef {
                                ref_name: branch_name,
                                snapshot_reference: SnapshotReference {
                                    snapshot_id,
                                    retention: SnapshotRetention::default(),
                                },
                            },
                        );
                        let plan = OperationPlan {
                            snapshot_id,
                            snapshot_sequence: 0,
                            n_splits,
                            manifest_list_path: Some(list_path),
                            carried: Vec::new(),
                            new_manifests: plans,
                            requirement: None,
                            updates,
                            partition_names: names,
                        };
                        proof {
                            assert(is_isqrt(sq as int, gfiles.len() as int));
                            assert(n_splits as int == spec_splits(
                                gfiles.len() as int,
                                MIN_DATAFILES as int + sq as int,
                            ));
                            assert(splits_assigned(n_splits, gfiles.len() as int, gfiles.len() as int));
                            lemma_groups_all_added(
                                plan_groups(plan.new_manifests@),
                                gentries,
                                snapshot_id,
                                sequence_number,
                            );
                            assert forall|i: int|
                                0 <= i < plan.new_manifests@.len() implies all_added(
                                (#[trigger] plan.new_manifests@[i]).entries@,
                                plan.snapshot_id,
                                (table_metadata.last_sequence_number + 1) as i64,
                            ) by {
                                assert(plan_groups(plan.new_manifests@)[i]
                                    == plan.new_manifests@[i].entries);
                            }
                        }
                        Ok(ExecuteOutcome::Done(plan))
                    },
                    Some(old_snap) => {
                        let old_id = *old_snap.snapshot_id();
                        let old_seq = *old_snap.sequence_number();
                        proof {
                            crate::search::lemma_first_where_props(
                                table_metadata.snapshots@,
                                crate::table_metadata::snapshot_with_id(old_id),
                            );
                        }
                        let list_entries: Vec<ManifestListEntry> = match manifest_list {
                            Some(v) => v,
                            None => {
                                return Err(
                                    Error::NotFound("Manifest list".to_owned(), "bytes".to_owned()),
                                );
                            },
                        };
                        let ghost glist = list_entries@;
                        let reader = ManifestListReader::new(list_entries);
                        let mut file_count: u64 = 0;
                        let mut carried: Vec<ManifestListEntry> = Vec::new();
                        let selected = select_manifest(
                            &names,
                            reader,
                            &mut file_count,
                            &mut carried,
                            &bounding,
                        )?;
                        proof {
                            broadcast use vstd::seq_lib::group_to_multiset_ensures;
                            broadcast use vstd::multiset::group_multiset_axioms;
                            broadcast use vstd::multiset::lemma_multiset_empty_len;

                            assert(Seq::<ManifestListEntry>::empty().to_multiset().len() == 0);
                            assert(carried@.to_multiset().insert(selected) =~= glist.to_multiset());
                        }
                        let pool = match file_count.checked_add(files.len() as u64) {
                            Some(v) => v,
                            None => {
                                return Err(
                                    Error::Conversion("file count".to_owned(), "u64".to_owned()),
                                );
                            },
                        };
                        let sq = isqrt_u64(pool);
                        let limit = MIN_DATAFILES + sq;
                        let selected_files: u64 = match selected.added_files_count {
                            Some(n) => if n >= 0 {
                                n as u64
                            } else {
                                0
                            },
                            None => 0,
                        };
                        let new_file_count = match selected_files.checked_add(files.len() as u64) {
                            Some(v) => v,
                            None => {
                                return Err(
                                    Error::Conversion("file count".to_owned(), "u64".to_owned()),
                                );
                            },
                        };
                        let q = new_file_count / limit;
                        let n_splits: u32 = if q == 0 {
                            0
                        } else {
                            ilog2_u64(q) + 1
                        };
                        let bounds: Rectangle = match &selected.partitions {
                            Some(sums) => {
                                let mut rect = crate::manifest_list::summary_to_rectangle(sums)?;
                                match rect.expand(&bounding) {
                                    Ok(()) => {},
                                    Err(e) => {
                                        return Err(e);
                                    },
                                }
                                rect
                            },
                            None => bounding.clone(),
                        };
                        let new_snapshot_sequence = match old_seq.checked_add(1) {
                            Some(v) => v,
                            None => {
                                return Err(
                                    Error::Conversion("sequence number".to_owned(), "i64".to_owned()),
                                );
                            },
                        };
                        let ghost gfiles = files@;
                        let new_entries = build_new_entries(files, snapshot_id, sequence_number);
                        let pending = PendingAppend {
                            selected,
                            new_entries,
                            carried,
                            n_splits,
                            bounds,
                            batch_bounds: bounding,
                            partition_names: names,
                            location: table_metadata.location.clone(),
                            snapshot_uuid: uuid,
                            snapshot_id,
                            sequence_number,
                            snapshot_sequence: new_snapshot_sequence,
                            branch_name,
                            old_snapshot_id: old_id,
                            schema_id,
                            partition_spec_id: spec_id,
                            additional_summary,
                        };
                        proof {
                            assert(is_isqrt(sq as int, pool as int));
                        }
                        Ok(ExecuteOutcome::NeedsManifest(pending))
                    },
                }
            },
            Operation::Rewrite { branch, files, additional_summary } => {
                let partition_spec = table_metadata.default_partition_spec()?;
                let spec_id = *partition_spec.spec_id();
                let schema = table_metadata.current_schema(branch.as_ref())?;
                let schema_id = *schema.schema_id();
                let names = partition_spec.field_names();
                let bounding = bounding_rect(&files, &names)?;
                let snapshot_id = generate_snapshot_id();
                let sequence_number = table_metadata.last_sequence_number + 1;
                let uuid = crate::operation::new_uuid_string();
                let branch_name: String = match &branch {
                    Some(b) => b.clone(),
                    None => "main".to_owned(),
                };
                let requirement = match table_metadata.current_snapshot(branch.as_ref())? {
                    Some(old_snap) => Some(
                        TableRequirement::AssertRefSnapshotId {
                            ref_name: branch_name.clone(),
                            snapshot_id: *old_snap.snapshot_id(),
                        },
                    ),
                    None => None,
                };
                let total = files.len() as u64;
                let sq = isqrt_u64(total);
                let limit = MIN_DATAFILES + sq;
                let q = total / limit;
                let n_splits: u32 = if q == 0 {
                    0
                } else {
                    ilog2_u64(q) + 1
                };
                let ghost gfiles = files@;
                let new_entries = build_new_entries(files, snapshot_id, sequence_number);
                let ghost gentries = new_entries@;
                proof {
                    if files_ok(self) && gfiles.len() > 0 && gfiles.len() < 0x7fff_ffff
                        && fits_single_manifest(gfiles.len() as int) && sum_file_records(gfiles)
                        <= 0x7fff_ffff_ffff_ffff && names@.len() == 0 {
                        // the sizing rule keeps such a batch whole, and
                        // nothing in writing it can fail
                        assert(is_isqrt(sq as int, gfiles.len() as int));
                        assert(q == 0);
                        assert(n_splits == 0);
                        assert(records_nonneg(gentries)) by {
                            assert forall|i: int|
                                0 <= i < gentries.len() implies (#[trigger] gentries[i])
                                .data_file.record_count >= 0 by {
                                assert(gentries[i].data_file == gfiles[i]);
                            }
                        }
                        lemma_sum_stamped(gfiles, snapshot_id, sequence_number);
                    }
                }
                let groups = split_datafiles(new_entries, bounding, &names, n_splits)?;
                let plans = write_fresh_groups(
                    groups,
                    &table_metadata.location,
                    &uuid,
                    snapshot_id,
                    spec_id,
                    sequence_number,
                    table_metadata.last_sequence_number,
                    &names,
                    0,
                )?;
                let list_path = manifest_list_location(
                    &table_metadata.location,
                    snapshot_id as u64,
                    &uuid,
                );
                let other: Vec<(String, String)> = match additional_summary {
                    Some(v) => v,
                    None => Vec::new(),
                };
                let snapshot = Snapshot {
                    snapshot_id,
                    sequence_number: 0,
                    manifest_list: list_path.clone(),
                    schema_id: Some(schema_id),
                    summary: Summary { operation: crate::snapshot::Operation::Append, other },
                };
                let mut ids: Vec<i64> = Vec::new();
                let sn = table_metadata.snapshots.len();
                let mut i: usize = 0;
                while i < sn
                    invariant
                        i <= sn,
                        sn == table_metadata.snapshots@.len(),
                        ids@.len() == i as int,
                        forall|j: int|
                            0 <= j < i ==> ids@[j] == (
                            #[trigger] table_metadata.snapshots@[j]).snapshot_id,
                    decreases sn - i,
                {
                    ids.push(table_metadata.snapshots[i].snapshot_id);
                    i = i + 1;
                }
                let mut updates: Vec<TableUpdate> = Vec::new();
                updates.push(TableUpdate::RemoveSnapshots { snapshot_ids: ids });
                updates.push(TableUpdate::AddSnapshot { snapshot });
                updates.push(
                    TableUpdate::SetSnapshotRef {
                        ref_name: branch_name,
                        snapshot_reference: SnapshotReference {
                            snapshot_id,
                            retention: SnapshotRetention::default(),
                        },
                    },
                );
                let plan = OperationPlan {
                    snapshot_id,
                    snapshot_sequence: 0,
                    n_splits,
                    manifest_list_path: Some(list_path),
                    carried: Vec::new(),
                    new_manifests: plans,
                    requirement,
                    updates,
                    partition_names: names,
                };
                proof {
                    assert(is_isqrt(sq as int, gfiles.len() as int));
                    assert(n_splits as int == spec_splits(
                        gfiles.len() as int,
                        MIN_DATAFILES as int + sq as int,
                    ));
                    assert(splits_assigned(n_splits, gfiles.len() as int, gfiles.len() as int));
                }
                Ok(ExecuteOutcome::Done(plan))
            },
        }
    }
}

/// Groups drawn from a run of freshly stamped entries hold only freshly
/// stamped entries.
proof fn lemma_groups_all_added(
    gs: Seq<Vec<ManifestEntry>>,
    source: Seq<ManifestEntry>,
    snapshot_id: i64,
    sequence_number: i64,
)
    requires
        groups_multiset(gs) == source.to_multiset(),
        all_added(source, snapshot_id, sequence_number),
    ensures
        forall|i: int|
            0 <= i < gs.len() ==> all_added((#[trigger] gs[i])@, snapshot_id, sequence_number),
{
    broadcast use vstd::seq_lib::group_to_multiset_ensures;

    assert forall|i: int|
        0 <= i < gs.len() implies all_added((#[trigger] gs[i])@, snapshot_id, sequence_number) by {
        assert forall|j: int| 0 <= j < gs[i]@.len() implies {
            let e = #[trigger] gs[i]@[j];
            &&& e.status == Status::Added
            &&& e.snapshot_id == Some(snapshot_id)
            &&& e.sequence_number == Some(sequence_number)
        } by {
            crate::append::lemma_groups_member(gs, i, j);
            let e = gs[i]@[j];
            assert(source.to_multiset().count(e) > 0);
            assert(source.contains(e));
            let k = choose|k: int| 0 <= k < source.len() && source[k] == e;
            assert(source[k] == e);
        }
    }
}

/// The branch argument's character content, for spec use.
pub open spec fn spec_branch_view(branch: Option<String>) -> Option<Seq<char>> {
    match branch {
        Some(b) => Some(b@),
        None => None,
    }
}

/// Relies on uuid::Uuid::new_v4 and its hyphenated `Display` form: a
/// fresh random identifier rendered as 36 characters.
#[verifier::external_body]
pub(crate) fn new_uuid_string() -> (r: String)
    ensures
        r@.len() == 36,
{
    uuid::Uuid::new_v4().to_string()
}

/// Extend an existing manifest in place: its entries are carried over
/// as they are, the new entries are appended behind them, and the
/// header's counts and summaries absorb the additions under the new
/// snapshot's stamp.  Fails with `InvalidFormat` on a negative record
/// count or summaries of the wrong shape, with `Conversion` on a count
/// overflow, and with `Type` on incomparable partition values.
#[verifier::loop_isolation(false)]
pub fn extend_manifest(
    selected: ManifestListEntry,
    existing_entries: Vec<ManifestEntry>,
    new_entries: Vec<ManifestEntry>,
    partition_names: &Vec<String>,
    snapshot_id: i64,
    sequence_number: i64,
) -> (r: Result<ManifestPlan, Error>)
    ensures
        r matches Ok(plan) ==> {
            &&& plan.entries@ == existing_entries@ + new_entries@
            &&& plan.header.manifest_path@ == selected.manifest_path@
            &&& plan.header.added_snapshot_id == snapshot_id
            &&& plan.header.sequence_number == sequence_number
            &&& (plan.header.added_files_count matches Some(af) && af as int == (match selected
                .added_files_count {
                Some(b) => b as int,
                None => 0,
            }) + new_entries@.len())
            &&& (plan.header.added_rows_count matches Some(ar) && ar as int == (match selected
                .added_rows_count {
                Some(b) => b as int,
                None => 0,
            }) + sum_records(new_entries@))
            &&& summaries_bound(plan.header.partitions, partition_names@, new_entries@)
            &&& (forall|d: int, value: Option<crate::values::Value>|
                #![trigger crate::manifest::summary_covers_one((selected.partitions->Some_0)@[d], value)]
                (0 <= d < partition_names@.len() && selected.partitions is Some
                    && crate::manifest::summary_covers_one(
                    (selected.partitions->Some_0)@[d],
                    value,
                )) ==> (plan.header.partitions matches Some(s) && d < s@.len()
                    && crate::manifest::summary_covers_one(s@[d], value)))
        },
        (partition_names@.len() == 0 && selected.partitions is None && records_nonneg(new_entries@)
            && (match selected.added_files_count {
            Some(b) => b as int,
            None => 0,
        }) + new_entries@.len() < 0x7fff_ffff && (match selected.added_rows_count {
            Some(b) => b as int,
            None => 0,
        }) + sum_records(new_entries@) <= 0x7fff_ffff_ffff_ffff) ==> r is Ok,
{
    if !entries_records_nonneg(&new_entries) {
        return Err(Error::InvalidFormat("record count".to_owned()));
    }
    let ghost base_files: int = match selected.added_files_count {
        Some(b) => b as int,
        None => 0,
    };
    let ghost base_rows: int = match selected.added_rows_count {
        Some(b) => b as int,
        None => 0,
    };
    let mut writer = match ManifestWriter::from_existing(
        selected,
        existing_entries,
        clone_names(partition_names),
        snapshot_id,
        sequence_number,
    ) {
        Ok(w) => w,
        Err(e) => {
            return Err(e);
        },
    };
    let ghost new_view = new_entries@;
    let ghost base_view = writer.spec_entries();
    proof {
        // the seeded summaries are carried over exactly, so whatever
        // they cover starts out covered
        if selected.partitions is Some {
            let os = selected.partitions->Some_0;
            assert(writer.spec_header().partitions matches Some(ws) && ws@ == os@);
        }
    }
    let mut new_entries = new_entries;
    let mut k: usize = 0;
    let m = new_entries.len();
    while k < m
        invariant
            k <= m,
            m == new_view.len(),
            new_entries@ =~= new_view.skip(k as int),
            records_nonneg(new_view),
            writer.inv(),
            writer.spec_entries() == base_view + new_view.take(k as int),
            writer.spec_appended() == new_view.take(k as int),
            writer.spec_base_entries() == base_view,
            writer.spec_base_files() == base_files,
            writer.spec_base_rows() == base_rows,
            writer.spec_names() == partition_names@,
            writer.spec_header().manifest_path@ == selected.manifest_path@,
            writer.spec_header().added_snapshot_id == snapshot_id,
            writer.spec_header().sequence_number == sequence_number,
            forall|d: int, value: Option<crate::values::Value>|
                #![trigger crate::manifest::summary_covers_one((selected.partitions->Some_0)@[d], value)]
                (0 <= d < partition_names@.len() && selected.partitions is Some
                    && crate::manifest::summary_covers_one(
                    (selected.partitions->Some_0)@[d],
                    value,
                )) ==> (writer.spec_header().partitions matches Some(s) && d < s@.len()
                    && crate::manifest::summary_covers_one(s@[d], value)),
        decreases m - k,
    {
        let e = new_entries.remove(0);
        proof {
            assert(e == new_view[k as int]);
            assert(new_entries@ =~= new_view.skip(k + 1));
        }
        let ghost writer_before = writer;
        match writer.append(e) {
            Ok(()) => {},
            Err(err) => {
                proof {
                    if partition_names@.len() == 0 && selected.partitions is None
                        && records_nonneg(new_view) && base_files + new_view.len() < 0x7fff_ffff
                        && base_rows + sum_records(new_view) <= 0x7fff_ffff_ffff_ffff {
                        // under these bounds an unpartitioned append
                        // cannot fail
                        assert(new_view.take(k + 1) =~= new_view.take(k as int).push(
                            new_view[k as int],
                        ));
                        crate::manifest::lemma_sum_records_push(
                            new_view.take(k as int),
                            new_view[k as int],
                        );
                        crate::manifest::lemma_sum_records_bounds(new_view, k + 1);
                        assert(false);
                    }
                }
                return Err(err);
            },
        }
        proof {
            assert(writer.spec_appended() =~= new_view.take(k + 1));
            assert(writer.spec_entries() =~= base_view + new_view.take(k + 1));
            assert forall|d: int, value: Option<crate::values::Value>|
                #![trigger crate::manifest::summary_covers_one((selected.partitions->Some_0)@[d], value)]
                (0 <= d < partition_names@.len() && selected.partitions is Some
                    && crate::manifest::summary_covers_one(
                    (selected.partitions->Some_0)@[d],
                    value,
                )) implies (writer.spec_header().partitions matches Some(s) && d < s@.len()
                && crate::manifest::summary_covers_one(s@[d], value)) by {
                if 0 <= d < partition_names@.len() && selected.partitions is Some
                    && crate::manifest::summary_covers_one(
                    (selected.partitions->Some_0)@[d],
                    value,
                ) {
                    assert(writer_before.spec_header().partitions matches Some(ws) && d < ws@.len()
                        && crate::manifest::summary_covers_one(ws@[d], value));
                }
            }
        }
        k = k + 1;
    }
    proof {
        assert(new_view.take(m as int) =~= new_view);
    }
    let (header, entries) = writer.finish();
    Ok(ManifestPlan { header, entries })
}

impl PendingAppend {
    /// Finish a paused `Append` with the elected manifest's decoded
    /// entries: with no split due, the manifest is rewritten in place
    /// with the new entries appended; otherwise the combined entries are
    /// split into balanced groups, each written as a fresh manifest.
    pub fn resume(self, manifest_entries: Vec<ManifestEntry>) -> (r: Result<OperationPlan, Error>)
        requires
            records_nonneg(self.new_entries@),
        ensures
            r matches Ok(plan) ==> {
                &&& plan.snapshot_id == self.snapshot_id
                &&& plan.snapshot_sequence == self.snapshot_sequence
                &&& plan.n_splits == self.n_splits
                &&& plan.carried@ == self.carried@
                &&& plan.partition_names@ == self.partition_names@
                &&& plan_commits_snapshot(plan, 0, self.branch_name@, self.additional_summary)
                &&& (plan.requirement matches Some(req) && (req
                    matches TableRequirement::AssertRefSnapshotId { ref_name, snapshot_id }
                    && ref_name@ == self.branch_name@ && snapshot_id == self.old_snapshot_id))
                &&& (self.n_splits == 0 ==> {
                    &&& plan.new_manifests@.len() == 1
                    &&& plan.new_manifests@[0].entries@ == manifest_entries@ + self.new_entries@
                    &&& (plan.new_manifests@[0].header.added_files_count matches Some(af) && af
                        as int == (match self.selected.added_files_count {
                        Some(b) => b as int,
                        None => 0,
                    }) + self.new_entries@.len())
                    &&& (plan.new_manifests@[0].header.added_rows_count matches Some(ar) && ar
                        as int == (match self.selected.added_rows_count {
                        Some(b) => b as int,
                        None => 0,
                    }) + sum_records(self.new_entries@))
                    &&& summaries_bound(
                        plan.new_manifests@[0].header.partitions,
                        plan.partition_names@,
                        self.new_entries@,
                    )
                })
                &&& (self.n_splits > 0 ==> {
                    &&& plan.new_manifests@.len() == vstd::arithmetic::power2::pow2(
                        self.n_splits as nat,
                    )
                    &&& paths_of_groups(plan_groups(plan.new_manifests@)) == paths_of_entries(
                        self.new_entries@ + manifest_entries@,
                    )
                    &&& groups_multiset(plan_groups(plan.new_manifests@)) == (self.new_entries@
                        + manifest_entries@).to_multiset()
                    &&& plan_manifests_ok(plan, self.sequence_number)
                })
            },
            (self.n_splits == 0 && self.partition_names@.len() == 0 && self.selected.partitions
                is None && records_nonneg(manifest_entries@) && (match self
                .selected
                .added_files_count {
                Some(b) => b as int,
                None => 0,
            }) + self.new_entries@.len() < 0x7fff_ffff && (match self.selected.added_rows_count {
                Some(b) => b as int,
                None => 0,
            }) + sum_records(self.new_entries@) <= 0x7fff_ffff_ffff_ffff) ==> r is Ok,
    {
        if !entries_records_nonneg(&manifest_entries) {
            return Err(Error::InvalidFormat("record count".to_owned()));
        }
        let PendingAppend {
            selected,
            new_entries,
            carried,
            n_splits,
            bounds,
            batch_bounds: _,
            partition_names,
            location,
            snapshot_uuid,
            snapshot_id,
            sequence_number,
            snapshot_sequence,
            branch_name,
            old_snapshot_id,
            schema_id,
            partition_spec_id,
            additional_summary,
        } = self;
        let plans: Vec<ManifestPlan>;
        if n_splits == 0 {
            let plan = match extend_manifest(
                selected,
                manifest_entries,
                new_entries,
                &partition_names,
                snapshot_id,
                sequence_number,
            ) {
                Ok(p) => p,
                Err(e) => {
                    return Err(e);
                },
            };
            let mut v: Vec<ManifestPlan> = Vec::new();
            v.push(plan);
            plans = v;
        } else {
            let min_seq = match sequence_number.checked_sub(1) {
                Some(v) => v,
                None => {
                    return Err(Error::Conversion("sequence number".to_owned(), "i64".to_owned()));
                },
            };
            let ghost new_view = new_entries@;
            let ghost old_view = manifest_entries@;
            let mut chained = new_entries;
            let mut manifest_entries = manifest_entries;
            chained.append(&mut manifest_entries);
            proof {
                assert(chained@ =~= new_view + old_view);
            }
            let groups = match split_datafiles(chained, bounds, &partition_names, n_splits) {
                Ok(g) => g,
                Err(e) => {
                    return Err(e);
                },
            };
            let written = write_fresh_groups(
                groups,
                &location,
                &snapshot_uuid,
                snapshot_id,
                partition_spec_id,
                sequence_number,
                min_seq,
                &partition_names,
                0,
            );
            plans = match written {
                Ok(p) => p,
                Err(e) => {
                    return Err(e);
                },
            };
        }
        let list_path = manifest_list_location(&location, snapshot_id as u64, &snapshot_uuid);
        let other: Vec<(String, String)> = match &additional_summary {
            Some(v) => clone_string_pairs_local(v),
            None => Vec::new(),
        };
        let snapshot = Snapshot {
            snapshot_id,
            sequence_number: snapshot_sequence,
            manifest_list: list_path.clone(),
            schema_id: Some(schema_id),
            summary: Summary { operation: crate::snapshot::Operation::Append, other },
        };
        let requirement = Some(
            TableRequirement::AssertRefSnapshotId {
                ref_name: branch_name.clone(),
                snapshot_id: old_snapshot_id,
            },
        );
        let mut updates: Vec<TableUpdate> = Vec::new();
        updates.push(TableUpdate::AddSnapshot { snapshot });
        updates.push(
            TableUpdate::SetSnapshotRef {
                ref_name: branch_name,
                snapshot_reference: SnapshotReference {
                    snapshot_id,
                    retention: SnapshotRetention::default(),
                },
            },
        );
        Ok(
            OperationPlan {
                snapshot_id,
                snapshot_sequence,
                n_splits,
                manifest_list_path: Some(list_path),
                carried,
                new_manifests: plans,
                requirement,
                updates,
                partition_names,
            },
        )
    }

    /// The seeded added-files count of the elected manifest.
    pub open spec fn spec_base_files_of(self) -> int {
        match self.selected.added_files_count {
            Some(b) => b as int,
            None => 0,
        }
    }

    /// The seeded added-rows count of the elected manifest.
    pub open spec fn spec_base_rows_of(self) -> int {
        match self.selected.added_rows_count {
            Some(b) => b as int,
            None => 0,
        }
    }
}

/// An exact copy of a list of string pairs.
fn clone_string_pairs_local(v: &Vec<(String, String)>) -> (r: Vec<(String, String)>)
    ensures
        r@ == v@,
{
    crate::snapshot::clone_string_pairs(v)
}

/// An exact copy of a list of names.
fn clone_names(names: &Vec<String>) -> (r: Vec<String>)
    ensures
        r@ == names@,
{
    let r = names.clone();
    proof {
        assert(r@ =~= names@);
    }
    r
}

} // verus!
