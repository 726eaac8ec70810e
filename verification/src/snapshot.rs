//! Snapshots: immutable named points in a table's history, their
//! summaries, and the named references (branches and tags) that point at
//! them.

use vstd::prelude::*;

verus! {

/// The operation a snapshot summary records.
#[derive(Debug, Clone, Copy, PartialEq, Eq, Structural)]
pub enum Operation {
    /// Files were added.
    Append,
    /// Files were replaced wholesale.
    Replace,
}

/// A snapshot summary: the operation and free-form annotations.
#[derive(Debug)]
pub struct Summary {
    /// The operation that produced the snapshot.
    pub operation: Operation,
    /// Further annotations, as key/value pairs.
    pub other: Vec<(String, String)>,
}

/// An exact copy of a list of string pairs.
pub fn clone_string_pairs(v: &Vec<(String, String)>) -> (r: Vec<(String, String)>)
    ensures
        r@ == v@,
{
    let mut out: Vec<(String, String)> = Vec::new();
    let n = v.len();
    let mut i: usize = 0;
    while i < n
        invariant
            i <= n,
            n == v@.len(),
            out@.len() == i as int,
            forall|j: int| 0 <= j < i ==> out@[j] == v@[j],
        decreases n - i,
    {
        let pair = (v[i].0.clone(), v[i].1.clone());
        out.push(pair);
        i = i + 1;
    }
    proof {
        assert(out@ =~= v@);
    }
    out
}

impl Clone for Summary {
    /// A clone carries the same operation and annotations.
    fn clone(&self) -> (r: Self)
        ensures
            r.operation == self.operation,
            r.other@ == self.other@,
    {
        Summary { operation: self.operation, other: clone_string_pairs(&self.other) }
    }
}

/// How long a reference keeps its snapshots.
#[derive(Debug, Clone, Copy, PartialEq, Eq, Structural)]
pub enum SnapshotRetention {
    /// A branch: a mutable pointer with optional retention limits.
    Branch {
        /// How many snapshots to keep at least, if limited.
        min_snapshots_to_keep: Option<i32>,
        /// Maximum snapshot age in milliseconds, if limited.
        max_snapshot_age_ms: Option<i64>,
        /// Maximum reference age in milliseconds, if limited.
        max_ref_age_ms: Option<i64>,
    },
    /// A tag: an immutable pointer with an optional age limit.
    Tag {
        /// Maximum reference age in milliseconds, if limited.
        max_ref_age_ms: Option<i64>,
    },
}

impl Default for SnapshotRetention {
    /// The default retention: a branch without limits.
    fn default() -> (r: Self)
        ensures
            r == (SnapshotRetention::Branch {
                min_snapshots_to_keep: None,
                max_snapshot_age_ms: None,
                max_ref_age_ms: None,
            }),
    {
        SnapshotRetention::Branch {
            min_snapshots_to_keep: None,
            max_snapshot_age_ms: None,
            max_ref_age_ms: None,
        }
    }
}

/// A named pointer to a snapshot, with its retention policy.
#[derive(Debug, Clone, Copy, PartialEq, Eq, Structural)]
pub struct SnapshotReference {
    /// The snapshot pointed at.
    pub snapshot_id: i64,
    /// The retention policy.
    pub retention: SnapshotRetention,
}

/// An immutable point in a table's history, referencing one manifest
/// list.
#[derive(Debug)]
pub struct Snapshot {
    /// The snapshot id, effectively unique within the table.
    pub snapshot_id: i64,
    /// Orders snapshots; strictly greater than the parent's.
    pub sequence_number: i64,
    /// Location of the snapshot's manifest list.
    pub manifest_list: String,
    /// The schema the snapshot was written under, if recorded.
    pub schema_id: Option<i32>,
    /// The snapshot summary.
    pub summary: Summary,
}

impl Clone for Snapshot {
    /// A clone carries the same identity and content.
    fn clone(&self) -> (r: Self)
        ensures
            r.snapshot_id == self.snapshot_id,
            r.sequence_number == self.sequence_number,
            r.manifest_list@ == self.manifest_list@,
            r.schema_id == self.schema_id,
            r.summary.operation == self.summary.operation,
            r.summary.other@ == self.summary.other@,
    {
        Snapshot {
            snapshot_id: self.snapshot_id,
            sequence_number: self.sequence_number,
            manifest_list: self.manifest_list.clone(),
            schema_id: self.schema_id,
            summary: self.summary.clone(),
        }
    }
}

impl Snapshot {
    /// The snapshot id.
    pub fn snapshot_id(&self) -> (r: &i64)
        ensures
            *r == self.snapshot_id,
    {
        &self.snapshot_id
    }

    /// The sequence number.
    pub fn sequence_number(&self) -> (r: &i64)
        ensures
            *r == self.sequence_number,
    {
        &self.sequence_number
    }

    /// The manifest-list location.
    pub fn manifest_list(&self) -> (r: &String)
        ensures
            *r == self.manifest_list,
    {
        &self.manifest_list
    }
}

/// Relies on uuid::Uuid::new_v4 and Uuid::as_u64_pair: a fresh random
/// 128-bit identifier, split into its two 64-bit halves.  Nothing can be
/// promised of a random value beyond its being two machine words.
#[verifier::external_body]
fn random_id_halves() -> (r: (u64, u64)) {
    uuid::Uuid::new_v4().as_u64_pair()
}

/// A random 63-bit snapshot id, assumed collision-free within a table.
pub fn generate_snapshot_id() -> (r: i64)
    ensures
        r >= 0,
{
    let (hi, lo) = random_id_halves();
    let mixed = hi ^ lo;
    let masked = mixed & 0x7fff_ffff_ffff_ffff;
    assert(masked <= 0x7fff_ffff_ffff_ffff) by (bit_vector)
        requires
            masked == mixed & 0x7fff_ffff_ffff_ffff,
    ;
    masked as i64
}

} // verus!
