//! The pure parts of reading a table: choosing which manifests to open,
//! inheriting sequence numbers into their entries, and filtering entries
//! by sequence-number range.  Fetching the blobs is the embedding
//! application's part.

use vstd::prelude::*;

use crate::error::Error;
use crate::manifest::{Content, ManifestEntry};
use crate::manifest_list::ManifestListEntry;
use crate::table::Table;
use crate::table_metadata::spec_branch_name;

verus! {

/// The manifests whose sequence number lies strictly after `start`; all
/// of them when no start is given.
pub open spec fn manifests_after(s: Seq<ManifestListEntry>, start: Option<i64>) -> Seq<
    ManifestListEntry,
>
    decreases s.len(),
{
    if s.len() == 0 {
        s
    } else if (match start {
        Some(b) => s.last().sequence_number > b,
        None => true,
    }) {
        manifests_after(s.drop_last(), start).push(s.last())
    } else {
        manifests_after(s.drop_last(), start)
    }
}

/// Keep the manifests of a snapshot that a scan must open: those whose
/// sequence number lies strictly after `start`.
pub fn filter_manifests_by_sequence(manifests: Vec<ManifestListEntry>, start: Option<i64>) -> (r:
    Vec<ManifestListEntry>)
    ensures
        r@ == manifests_after(manifests@, start),
{
    let ghost input = manifests@;
    let mut manifests = manifests;
    let mut out: Vec<ManifestListEntry> = Vec::new();
    let n = manifests.len();
    let mut i: usize = 0;
    proof {
        assert(input.take(0) =~= Seq::<ManifestListEntry>::empty());
    }
    while i < n
        invariant
            i <= n,
            n == input.len(),
            manifests@ =~= input.skip(i as int),
            out@ == manifests_after(input.take(i as int), start),
        decreases n - i,
    {
        let e = manifests.remove(0);
        proof {
            assert(e == input[i as int]);
            assert(manifests@ =~= input.skip(i + 1));
            assert(input.take(i + 1).drop_last() =~= input.take(i as int));
            assert(input.take(i + 1).last() == input[i as int]);
        }
        let keep = match &start {
            Some(b) => e.sequence_number > *b,
            None => true,
        };
        if keep {
            out.push(e);
        }
        i = i + 1;
    }
    proof {
        assert(input.take(n as int) =~= input);
    }
    out
}

/// The entries of one manifest after version-2 inheritance and a
/// sequence-range filter: every entry's absent sequence number becomes
/// the manifest's, and only entries within `(start, end]` remain.
pub open spec fn scan_entries(
    s: Seq<ManifestEntry>,
    inherited: i64,
    range: (Option<i64>, Option<i64>),
) -> Seq<ManifestEntry>
    decreases s.len(),
{
    if s.len() == 0 {
        s
    } else {
        let e = s.last();
        let seq = match e.sequence_number {
            Some(v) => v,
            None => inherited,
        };
        let keep = match range {
            (Some(start), Some(end)) => start < seq && seq <= end,
            (Some(start), None) => start < seq,
            (None, Some(end)) => seq <= end,
            (None, None) => true,
        };
        if keep {
            scan_entries(s.drop_last(), inherited, range).push(
                ManifestEntry { sequence_number: Some(seq), ..e },
            )
        } else {
            scan_entries(s.drop_last(), inherited, range)
        }
    }
}

/// Inherit the manifest's sequence number into its entries and keep
/// those within the `(start, end]` range.
pub fn inherit_and_filter_entries(
    entries: Vec<ManifestEntry>,
    inherited: i64,
    range: (Option<i64>, Option<i64>),
) -> (r: Vec<ManifestEntry>)
    ensures
        r@ == scan_entries(entries@, inherited, range),
{
    let ghost input = entries@;
    let mut entries = entries;
    let mut out: Vec<ManifestEntry> = Vec::new();
    let n = entries.len();
    let mut i: usize = 0;
    proof {
        assert(input.take(0) =~= Seq::<ManifestEntry>::empty());
    }
    while i < n
        invariant
            i <= n,
            n == input.len(),
            entries@ =~= input.skip(i as int),
            out@ == scan_entries(input.take(i as int), inherited, range),
        decreases n - i,
    {
        let mut e = entries.remove(0);
        proof {
            assert(e == input[i as int]);
            assert(entries@ =~= input.skip(i + 1));
            assert(input.take(i + 1).drop_last() =~= input.take(i as int));
            assert(input.take(i + 1).last() == input[i as int]);
        }
        e.inherit_sequence_number(inherited);
        let seq = match e.sequence_number() {
            Some(v) => *v,
            None => inherited,
        };
        let keep = match range {
            (Some(start), Some(end)) => start < seq && seq <= end,
            (Some(start), None) => start < seq,
            (None, Some(end)) => seq <= end,
            (None, None) => true,
        };
        if keep {
            out.push(e);
        }
        i = i + 1;
    }
    proof {
        assert(input.take(n as int) =~= input);
    }
    out
}

/// Whether any entry's data file holds something other than data rows.
pub fn any_delete(entries: &Vec<ManifestEntry>) -> (r: bool)
    ensures
        r == exists|i: int|
            0 <= i < entries@.len() && (#[trigger] entries@[i]).data_file.content != Content::Data,
{
    let n = entries.len();
    let mut i: usize = 0;
    while i < n
        invariant
            i <= n,
            n == entries@.len(),
            forall|j: int| 0 <= j < i ==> (#[trigger] entries@[j]).data_file.content
                == Content::Data,
        decreases n - i,
    {
        let is_data = matches!(entries[i].data_file.content, Content::Data);
        if !is_data {
            return true;
        }
        i = i + 1;
    }
    false
}

/// The current snapshot of a table's metadata, `None` where there is
/// none or the pointer dangles.
pub open spec fn spec_current_snapshot(
    md: crate::table_metadata::TableMetadata,
) -> Option<crate::snapshot::Snapshot> {
    match md.spec_resolved_snapshot_id(None) {
        Some(id) => md.spec_snapshot_by_id(id),
        None => None,
    }
}

/// The snapshot a ranged listing reads: the named end snapshot where it
/// exists, the current snapshot otherwise.
pub open spec fn spec_scan_end_snapshot(
    md: crate::table_metadata::TableMetadata,
    end: Option<i64>,
) -> Option<crate::snapshot::Snapshot> {
    match end {
        Some(id) => match md.spec_snapshot_by_id(id) {
            Some(s) => Some(s),
            None => spec_current_snapshot(md),
        },
        None => spec_current_snapshot(md),
    }
}

/// Whether a named end snapshot is absent, so the listing falls back to
/// the current snapshot.
pub open spec fn spec_end_falls_back(
    md: crate::table_metadata::TableMetadata,
    end: Option<i64>,
) -> bool {
    match end {
        Some(id) => md.spec_snapshot_by_id(id) is None,
        None => true,
    }
}

/// The sequence-number floor a ranged listing filters by: the start
/// snapshot's sequence number, unless it is zero or the snapshot is
/// unknown.
pub open spec fn spec_scan_floor(
    md: crate::table_metadata::TableMetadata,
    start: Option<i64>,
) -> Option<i64> {
    match start {
        Some(sid) => match md.spec_snapshot_by_id(sid) {
            Some(s) => if s.sequence_number == 0 {
                None
            } else {
                Some(s.sequence_number)
            },
            None => None,
        },
        None => None,
    }
}

/// What a ranged manifest listing must fetch: the manifest list of the
/// end snapshot (the named one, or the current), and the sequence-number
/// floor the entries are filtered by (the start snapshot's, unless it is
/// zero or the snapshot is unknown).  Yields nothing when the table has
/// no snapshot to list, and fails exactly when the fallback's current
/// pointer dangles.
pub fn manifests_read_plan(table: &Table, start: Option<i64>, end: Option<i64>) -> (r: Result<
    Option<(String, Option<i64>)>,
    Error,
>)
    ensures
        r matches Ok(Some(p)) ==> ({
            &&& spec_scan_end_snapshot(table.spec_metadata(), end) matches Some(s) && p.0@
                == s.manifest_list@
            &&& p.1 == spec_scan_floor(table.spec_metadata(), start)
        }),
        r matches Ok(None{}) ==> spec_end_falls_back(table.spec_metadata(), end)
            && table.spec_metadata().spec_resolved_snapshot_id(spec_branch_name(None)) is None,
        r is Err <==> spec_end_falls_back(table.spec_metadata(), end) && (
        table.spec_metadata().spec_resolved_snapshot_id(spec_branch_name(None)) matches Some(id)
            && table.spec_metadata().spec_snapshot_by_id(id) is None),
{
    let metadata = table.metadata();
    let end_snapshot = match end {
        Some(id) => match metadata.snapshot_by_id(id) {
            Some(s) => Some(s),
            None => metadata.current_snapshot(None)?,
        },
        None => metadata.current_snapshot(None)?,
    };
    let end_snapshot = match end_snapshot {
        Some(s) => s,
        None => {
            return Ok(None);
        },
    };
    let start_floor: Option<i64> = match start {
        Some(id) => match metadata.snapshot_by_id(id) {
            Some(s) => {
                let seq = *s.sequence_number();
                if seq == 0 {
                    None
                } else {
                    Some(seq)
                }
            },
            None => None,
        },
        None => None,
    };
    Ok(Some((end_snapshot.manifest_list().clone(), start_floor)))
}

/// The manifests a bool filter keeps: entry `i` stays where flag `i` is
/// set, pairing entries and flags until either runs out; everything
/// stays when no filter is given.
pub open spec fn manifests_flagged(
    s: Seq<ManifestListEntry>,
    filter: Option<Vec<bool>>,
) -> Seq<ManifestListEntry>
    decreases s.len(),
{
    match filter {
        None => s,
        Some(flags) => manifests_flagged_to(
            s,
            flags@,
            if flags@.len() < s.len() {
                flags@.len() as int
            } else {
                s.len() as int
            },
        ),
    }
}

/// The flagged entries among the first `k`.
pub open spec fn manifests_flagged_to(
    s: Seq<ManifestListEntry>,
    flags: Seq<bool>,
    k: int,
) -> Seq<ManifestListEntry>
    decreases k,
{
    if k <= 0 {
        Seq::empty()
    } else if flags[k - 1] {
        manifests_flagged_to(s, flags, k - 1).push(s[k - 1])
    } else {
        manifests_flagged_to(s, flags, k - 1)
    }
}

/// Select the manifests a bool filter keeps, in order; all of them when
/// no filter is given.
pub fn select_manifests_by_flags(
    manifests: Vec<ManifestListEntry>,
    filter: Option<Vec<bool>>,
) -> (r: Vec<ManifestListEntry>)
    ensures
        r@ == manifests_flagged(manifests@, filter),
{
    let ghost input = manifests@;
    match filter {
        None => manifests,
        Some(flags) => {
            let mut manifests = manifests;
            let mut out: Vec<ManifestListEntry> = Vec::new();
            let bound = if flags.len() < manifests.len() {
                flags.len()
            } else {
                manifests.len()
            };
            let mut i: usize = 0;
            while i < bound
                invariant
                    i <= bound,
                    bound <= input.len(),
                    bound <= flags@.len(),
                    bound == if flags@.len() < input.len() {
                        flags@.len() as int
                    } else {
                        input.len() as int
                    },
                    manifests@ =~= input.skip(i as int),
                    out@ == manifests_flagged_to(input, flags@, i as int),
                decreases bound - i,
            {
                let e = manifests.remove(0);
                proof {
                    assert(e == input[i as int]);
                    assert(manifests@ =~= input.skip(i + 1));
                }
                if flags[i] {
                    out.push(e);
                }
                i = i + 1;
            }
            proof {
                assert(out@ == manifests_flagged(input, Some(flags)));
            }
            out
        },
    }
}

/// The data-file locations of a run of entries, in order.
pub fn data_file_paths(entries: &Vec<ManifestEntry>) -> (r: Vec<String>)
    ensures
        r@.len() == entries@.len(),
        forall|i: int| 0 <= i < r@.len() ==> r@[i]@ == (#[trigger] entries@[i]).data_file
            .file_path@,
{
    let mut out: Vec<String> = Vec::new();
    let n = entries.len();
    let mut i: usize = 0;
    while i < n
        invariant
            i <= n,
            n == entries@.len(),
            out@.len() == i as int,
            forall|j: int| 0 <= j < i ==> out@[j]@ == (#[trigger] entries@[j]).data_file
                .file_path@,
        decreases n - i,
    {
        out.push(entries[i].data_file.file_path.clone());
        i = i + 1;
    }
    out
}

/// The locations of a run of manifests, in order.
pub fn manifest_paths(manifests: &Vec<ManifestListEntry>) -> (r: Vec<String>)
    ensures
        r@.len() == manifests@.len(),
        forall|i: int| 0 <= i < r@.len() ==> r@[i]@ == (#[trigger] manifests@[i]).manifest_path@,
{
    let mut out: Vec<String> = Vec::new();
    let n = manifests.len();
    let mut i: usize = 0;
    while i < n
        invariant
            i <= n,
            n == manifests@.len(),
            out@.len() == i as int,
            forall|j: int| 0 <= j < i ==> out@[j]@ == (#[trigger] manifests@[j]).manifest_path@,
        decreases n - i,
    {
        out.push(manifests[i].manifest_path.clone());
        i = i + 1;
    }
    out
}

} // verus!
