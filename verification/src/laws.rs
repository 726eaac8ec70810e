//! The crate-level guarantees that span several functions, stated and
//! proved over the models the function contracts use.

use vstd::prelude::*;

use crate::commit::{
    assoc_set, spec_apply_update, spec_apply_updates, view_ref_named, MetaView, TableUpdate,
};
use crate::manifest::{summary_covers_one, sum_records, ManifestEntry, Status};
use crate::operation::{
    all_added, fresh_manifest_ok, plan_commits_snapshot, plan_groups, paths_of_files, ManifestPlan,
    OperationPlan,
};
use crate::append::paths_of_groups;
use crate::search::{first_where, lemma_first_where_determined, lemma_first_where_props};
use crate::snapshot::{Snapshot, SnapshotReference};
use crate::values::struct_value;

verus! {

/// Setting a reference makes the reference list yield the set value.
proof fn lemma_assoc_ref_get(
    refs: Seq<(Seq<char>, SnapshotReference)>,
    key: Seq<char>,
    v: SnapshotReference,
)
    ensures
        ({
            let after = assoc_set(refs, key, v);
            let i = first_where(after, view_ref_named(key));
            &&& i != -1
            &&& after[i].1 == v
        }),
{
    let i = first_where(refs, view_ref_named(key));
    lemma_first_where_props(refs, view_ref_named(key));
    let after = assoc_set(refs, key, v);
    if i == -1 {
        assert forall|j: int| 0 <= j < refs.len() implies !(view_ref_named(key)(after[j])) by {
            assert(after[j] == refs[j]);
        }
        assert(after[refs.len() as int] == (key, v));
        lemma_first_where_determined(after, view_ref_named(key), refs.len() as int);
    } else {
        assert forall|j: int| 0 <= j < i implies !(view_ref_named(key)(after[j])) by {
            assert(after[j] == refs[j]);
        }
        assert(after[i] == (key, v));
        lemma_first_where_determined(after, view_ref_named(key), i);
    }
}

/// Committing an appended snapshot moves the branch: after the plan's
/// updates are applied, the branch reference points at the new snapshot,
/// the snapshot is present with its sequence number, and the last
/// sequence number dominates it.
pub proof fn lemma_append_commit(
    m: MetaView,
    plan: OperationPlan,
    branch: Seq<char>,
    extra: Option<Vec<(String, String)>>,
)
    requires
        plan_commits_snapshot(plan, 0, branch, extra),
        forall|i: int|
            0 <= i < m.snapshots.len() ==> (#[trigger] m.snapshots[i]).snapshot_id
                != plan.snapshot_id,
    ensures
        ({
            let m2 = spec_apply_updates(m, plan.updates@);
            &&& m2.ref_of(branch) matches Some(r) && r.snapshot_id == plan.snapshot_id
            &&& m2.snapshot_of(plan.snapshot_id as int) matches Some(s) && s.sequence_number
                == plan.snapshot_sequence
            &&& m2.last_sequence_number >= plan.snapshot_sequence
        }),
{
    let u0 = plan.updates@[0];
    let u1 = plan.updates@[1];
    let m1 = spec_apply_update(m, u0);
    let m2 = spec_apply_update(m1, u1);
    assert(plan.updates@.skip(1)[0] == u1);
    assert(plan.updates@.skip(1).skip(1) =~= plan.updates@.skip(2));
    assert(plan.updates@.skip(2).len() == 0);
    crate::commit::lemma_apply_step(m, plan.updates@);
    crate::commit::lemma_apply_step(m1, plan.updates@.skip(1));
    crate::commit::lemma_apply_empty(m2, plan.updates@.skip(2));
    assert(spec_apply_updates(m, plan.updates@) == m2);
    let snap = u0->AddSnapshot_snapshot;
    let rf = u1->SetSnapshotRef_snapshot_reference;
    let name = u1->SetSnapshotRef_ref_name;
    // the new snapshot is the last one and no other carries its id
    assert(m1.snapshots == m.snapshots.push(snap));
    assert(m2.snapshots == m1.snapshots);
    assert forall|j: int| 0 <= j < m.snapshots.len() implies !(
    crate::table_metadata::snapshot_with_id_int(plan.snapshot_id as int)(m2.snapshots[j])) by {
        assert(m2.snapshots[j] == m.snapshots[j]);
    }
    assert(m2.snapshots[m.snapshots.len() as int] == snap);
    lemma_first_where_determined(
        m2.snapshots,
        crate::table_metadata::snapshot_with_id_int(plan.snapshot_id as int),
        m.snapshots.len() as int,
    );
    // the branch reference now names the new snapshot
    lemma_assoc_ref_get(m1.refs, name@, rf);
    assert(m2.refs == assoc_set(m1.refs, name@, rf));
}

/// The snapshots that survive removal of every listed id: none, when
/// every snapshot's id is listed.
proof fn lemma_remove_all(snaps: Seq<Snapshot>, ids: Seq<i64>)
    requires
        forall|i: int| 0 <= i < snaps.len() ==> ids.contains((#[trigger] snaps[i]).snapshot_id),
    ensures
        crate::commit::snapshots_after_remove(snaps, ids).len() == 0,
    decreases snaps.len(),
{
    if snaps.len() != 0 {
        assert(snaps[snaps.len() - 1] == snaps.last());
        assert(ids.contains(snaps.last().snapshot_id));
        assert forall|i: int| 0 <= i < snaps.drop_last().len() implies ids.contains(
            (#[trigger] snaps.drop_last()[i]).snapshot_id,
        ) by {
            assert(snaps.drop_last()[i] == snaps[i]);
        }
        lemma_remove_all(snaps.drop_last(), ids);
    }
}

/// Committing a rewrite collapses the lineage: after the plan's updates
/// are applied, the new snapshot is the only snapshot, and the branch
/// points at it.
pub proof fn lemma_rewrite_commit(
    m: MetaView,
    plan: OperationPlan,
    branch: Seq<char>,
    extra: Option<Vec<(String, String)>>,
)
    requires
        plan_commits_snapshot(plan, 1, branch, extra),
        plan.updates@[0] matches TableUpdate::RemoveSnapshots { snapshot_ids } && {
            &&& snapshot_ids@.len() == m.snapshots.len()
            &&& forall|i: int|
                0 <= i < snapshot_ids@.len() ==> snapshot_ids@[i] == (
                #[trigger] m.snapshots[i]).snapshot_id
        },
    ensures
        ({
            let m2 = spec_apply_updates(m, plan.updates@);
            &&& m2.snapshots.len() == 1
            &&& m2.snapshots[0].snapshot_id == plan.snapshot_id
            &&& m2.ref_of(branch) matches Some(r) && r.snapshot_id == plan.snapshot_id
        }),
{
    let u0 = plan.updates@[0];
    let u1 = plan.updates@[1];
    let u2 = plan.updates@[2];
    let m1 = spec_apply_update(m, u0);
    let m2 = spec_apply_update(m1, u1);
    let m3 = spec_apply_update(m2, u2);
    assert(plan.updates@.skip(1)[0] == u1);
    assert(plan.updates@.skip(1).skip(1) =~= plan.updates@.skip(2));
    assert(plan.updates@.skip(2)[0] == u2);
    assert(plan.updates@.skip(2).skip(1) =~= plan.updates@.skip(3));
    assert(plan.updates@.skip(3).len() == 0);
    crate::commit::lemma_apply_step(m, plan.updates@);
    crate::commit::lemma_apply_step(m1, plan.updates@.skip(1));
    crate::commit::lemma_apply_step(m2, plan.updates@.skip(2));
    crate::commit::lemma_apply_empty(m3, plan.updates@.skip(3));
    assert(spec_apply_updates(m, plan.updates@) == m3);
    let ids = u0->RemoveSnapshots_snapshot_ids;
    assert forall|i: int| 0 <= i < m.snapshots.len() implies ids@.contains(
        (#[trigger] m.snapshots[i]).snapshot_id,
    ) by {
        assert(ids@[i] == m.snapshots[i].snapshot_id);
    }
    lemma_remove_all(m.snapshots, ids@);
    let snap = u1->AddSnapshot_snapshot;
    assert(m2.snapshots == m1.snapshots.push(snap));
    assert(m2.snapshots.len() == 1);
    let rf = u2->SetSnapshotRef_snapshot_reference;
    let name = u2->SetSnapshotRef_ref_name;
    lemma_assoc_ref_get(m2.refs, name@, rf);
}

/// Rewriting is idempotent on data content: two rewrites of the same
/// files plan manifests that cover the same multiset of data-file
/// locations, whatever metadata they ran against.
pub proof fn lemma_rewrite_idempotent(
    plan1: OperationPlan,
    plan2: OperationPlan,
    files: Seq<crate::manifest::DataFile>,
)
    requires
        paths_of_groups(plan_groups(plan1.new_manifests@)) == paths_of_files(files),
        paths_of_groups(plan_groups(plan2.new_manifests@)) == paths_of_files(files),
    ensures
        paths_of_groups(plan_groups(plan1.new_manifests@)) == paths_of_groups(
            plan_groups(plan2.new_manifests@),
        ),
{
}

/// Split balance: the group-size bound the split planner guarantees —
/// the total halved, rounding up, `n` times — is exactly the total over
/// `2^n`, rounded up, and so at most twice any group's fair share.
pub proof fn lemma_split_balance_bound(t: int, n: nat)
    requires
        t >= 0,
    ensures
        crate::append::halved_up(t, n) == (t + vstd::arithmetic::power2::pow2(n) - 1) / (
        vstd::arithmetic::power2::pow2(n) as int),
        crate::append::halved_up(t, n) <= 2 * ((t + vstd::arithmetic::power2::pow2(n) - 1) / (
        vstd::arithmetic::power2::pow2(n) as int)),
    decreases n,
{
    vstd::arithmetic::power2::lemma_pow2_pos(n);
    if n == 0 {
        vstd::arithmetic::power2::lemma2_to64();
        assert(crate::append::halved_up(t, 0) == t);
        assert((t + 1 - 1) / 1 == t);
    } else {
        let m = vstd::arithmetic::power2::pow2((n - 1) as nat) as int;
        vstd::arithmetic::power2::lemma_pow2_pos((n - 1) as nat);
        vstd::arithmetic::power2::lemma_pow2_unfold(n);
        lemma_split_balance_bound((t + 1) / 2, (n - 1) as nat);
        // hoist the additive part over the halving, then merge the
        // denominators
        vstd::arithmetic::div_mod::lemma_hoist_over_denominator(t + 1, m - 1, 2);
        assert((t + 1) / 2 + (m - 1) == (t + 1 + (m - 1) * 2) / 2);
        assert(t + 1 + (m - 1) * 2 == t + 2 * m - 1);
        vstd::arithmetic::div_mod::lemma_div_denominator(t + 2 * m - 1, 2, m);
        assert(((t + 2 * m - 1) / 2) / m == (t + 2 * m - 1) / (2 * m));
        assert(crate::append::halved_up(t, n) == (t + 2 * m - 1) / (2 * m));
    }
    // the rounded-up share is at least zero, so it is at most its double
    vstd::arithmetic::div_mod::lemma_div_is_ordered(
        0,
        t + vstd::arithmetic::power2::pow2(n) - 1,
        vstd::arithmetic::power2::pow2(n) as int,
    );
}

/// How many entries of a run were added by its snapshot.
pub open spec fn count_added(s: Seq<ManifestEntry>) -> int
    decreases s.len(),
{
    if s.len() == 0 {
        0
    } else {
        count_added(s.drop_last()) + (if s.last().status == Status::Added {
            1int
        } else {
            0int
        })
    }
}

/// A run of freshly stamped entries counts as all added.
proof fn lemma_count_added_all(s: Seq<ManifestEntry>, snapshot_id: i64, sequence_number: i64)
    requires
        all_added(s, snapshot_id, sequence_number),
    ensures
        count_added(s) == s.len(),
    decreases s.len(),
{
    if s.len() != 0 {
        assert(s.last() == s[s.len() - 1]);
        assert forall|i: int| 0 <= i < s.drop_last().len() implies {
            let e = #[trigger] s.drop_last()[i];
            &&& e.status == Status::Added
            &&& e.snapshot_id == Some(snapshot_id)
            &&& e.sequence_number == Some(sequence_number)
        } by {
            assert(s.drop_last()[i] == s[i]);
        }
        lemma_count_added_all(s.drop_last(), snapshot_id, sequence_number);
    }
}

/// A fresh manifest's header counts exactly its added entries and their
/// rows: the added-files count is the number of `Added` entries and the
/// added-rows count is the total of their record counts.
pub proof fn lemma_manifest_counts(
    p: ManifestPlan,
    names: Seq<String>,
    snapshot_id: i64,
    sequence_number: i64,
)
    requires
        fresh_manifest_ok(p, names),
        all_added(p.entries@, snapshot_id, sequence_number),
    ensures
        p.header.added_files_count matches Some(af) && af as int == count_added(p.entries@),
        p.header.added_rows_count matches Some(ar) && ar as int == sum_records(p.entries@),
{
    lemma_count_added_all(p.entries@, snapshot_id, sequence_number);
}

/// A fresh manifest's partition summaries bound its entries: for every
/// entry and every partition column, the recorded summary covers the
/// entry's value of that column.
pub proof fn lemma_manifest_summaries(p: ManifestPlan, names: Seq<String>, k: int, d: int)
    requires
        fresh_manifest_ok(p, names),
        0 <= k < p.entries@.len(),
        0 <= d < names.len(),
    ensures
        p.header.partitions matches Some(s) && d < s@.len() && summary_covers_one(
            s@[d],
            struct_value(p.entries@[k].data_file.partition, names[d]@),
        ),
{
}

} // verus!
