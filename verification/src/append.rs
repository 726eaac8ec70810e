//! The append machinery: electing the manifest to extend (by row count
//! for unpartitioned tables, by snuggest after-extend bounding rectangle
//! otherwise) and splitting an entry stream into balanced groups.

use vstd::prelude::*;

use crate::error::Error;
use crate::manifest::ManifestEntry;
use crate::manifest_list::{
    spec_summary_bounded, spec_summary_maxs, spec_summary_mins, summary_to_rectangle,
    ManifestListEntry, ManifestListReader,
};
use crate::rectangle::{
    bounds_wf, lemma_priority_cmp_flip, lemma_width_le_trans, priority_cmp, widths_of, width_le,
    Rectangle,
};
use crate::values::{comparable, struct_value, val_lt, val_max, val_min, Value};

verus! {

/// The added-files count of a header, absent or negative counting as
/// none.
pub open spec fn files_of(e: ManifestListEntry) -> int {
    match e.added_files_count {
        Some(n) => if n >= 0 {
            n as int
        } else {
            0
        },
        None => 0,
    }
}

/// The total added-files count of a run of headers.
pub open spec fn sum_added_files(s: Seq<ManifestListEntry>) -> int
    decreases s.len(),
{
    if s.len() == 0 {
        0
    } else {
        files_of(s[0]) + sum_added_files(s.skip(1))
    }
}

/// Every partial added-files total is at least zero and at most the
/// whole.
pub proof fn lemma_sum_added_files_nonneg(s: Seq<ManifestListEntry>)
    ensures
        sum_added_files(s) >= 0,
    decreases s.len(),
{
    if s.len() != 0 {
        lemma_sum_added_files_nonneg(s.skip(1));
    }
}

/// The sorting key the unpartitioned selector minimizes: the header's
/// added-rows count, an absent count counting as infinite.
pub open spec fn rows_key(e: ManifestListEntry) -> int {
    match e.added_rows_count {
        Some(n) => n as int,
        None => 0x8000_0000_0000_0000,
    }
}

/// Componentwise smaller bounds of two equally long tuples.
pub open spec fn merged_mins(a: Seq<Value>, b: Seq<Value>) -> Seq<Value> {
    Seq::new(a.len(), |d: int| val_min(a[d], b[d]))
}

/// Componentwise larger bounds of two equally long tuples.
pub open spec fn merged_maxs(a: Seq<Value>, b: Seq<Value>) -> Seq<Value> {
    Seq::new(a.len(), |d: int| val_max(a[d], b[d]))
}

/// The widths a header's rectangle would have after absorbing the
/// incoming batch's bounds.
pub open spec fn spec_after_widths(e: ManifestListEntry, b: Rectangle) -> Seq<int> {
    let s = (e.partitions->Some_0)@;
    widths_of(
        merged_mins(spec_summary_mins(s), b.mins()),
        merged_maxs(spec_summary_maxs(s), b.maxs()),
    )
}

/// What the partitioned selector asks of a header: summaries present,
/// with both bounds each, forming a well-formed rectangle of the batch's
/// dimension count, componentwise comparable with the batch's bounds.
pub open spec fn candidate_ok(e: ManifestListEntry, b: Rectangle) -> bool {
    &&& e.partitions matches Some(s) && {
        &&& spec_summary_bounded(s@)
        &&& bounds_wf(spec_summary_mins(s@), spec_summary_maxs(s@))
        &&& s@.len() == b.spec_dims()
        &&& forall|d: int|
            0 <= d < s@.len() ==> comparable(#[trigger] spec_summary_mins(s@)[d], b.mins()[d])
    }
}

/// The after-extend rectangle of a fit candidate, as an executable
/// value whose widths are `spec_after_widths`.
fn after_rect(e: &ManifestListEntry, bounds: &Rectangle) -> (r: Result<Rectangle, Error>)
    ensures
        r matches Ok(rect) ==> candidate_ok(*e, *bounds) && rect.widths() == spec_after_widths(
            *e,
            *bounds,
        ),
        r is Err ==> !candidate_ok(*e, *bounds),
{
    match &e.partitions {
        None => Err(Error::NotFound("Partition summary".to_owned(), "candidate".to_owned())),
        Some(sums) => {
            let mut rect = match summary_to_rectangle(sums) {
                Ok(r) => r,
                Err(err) => {
                    return Err(err);
                },
            };
            proof {
                use_type_invariant(&rect);
            }
            match rect.expand(bounds) {
                Ok(()) => {
                    proof {
                        use_type_invariant(bounds);
                        use_type_invariant(&rect);
                        let s = sums@;
                        assert(rect.mins() =~= merged_mins(spec_summary_mins(s), bounds.mins()));
                        assert(rect.maxs() =~= merged_maxs(spec_summary_maxs(s), bounds.maxs()));
                        assert(rect.widths() =~= spec_after_widths(*e, *bounds));
                    }
                    Ok(rect)
                },
                Err(err) => Err(err),
            }
        },
    }
}

/// Pick the manifest of a snapshot to extend with an incoming batch of
/// files, passing every other header through to `out` and accumulating
/// every header's added-files count into `file_count`.
///
/// With no partition columns, the manifest with the smallest added-rows
/// count wins (an absent count counting as infinite).  Otherwise the
/// manifest whose after-extend bounding rectangle is smallest under
/// priority comparison wins.  The first of equally good candidates wins.
/// Fails with `NotFound` on an empty manifest list, leaving `out` and
/// `file_count` as they were.
#[verifier::loop_isolation(false)]
#[verifier::rlimit(60)]
pub fn select_manifest(
    partition_column_names: &Vec<String>,
    reader: ManifestListReader,
    file_count: &mut u64,
    out: &mut Vec<ManifestListEntry>,
    bounding_partition_values: &Rectangle,
) -> (r: Result<ManifestListEntry, Error>)
    ensures
        r matches Ok(sel) ==> {
            &&& final(out)@.to_multiset().insert(sel) == old(out)@.to_multiset().add(
                reader.remaining().to_multiset(),
            )
            &&& final(out)@.len() + 1 == old(out)@.len() + reader.remaining().len()
            &&& forall|j: int| 0 <= j < old(out)@.len() ==> final(out)@[j] == old(out)@[j]
            &&& *final(file_count) == *old(file_count) + sum_added_files(reader.remaining())
            &&& partition_column_names@.len() == 0 ==> (forall|j: int|
                old(out)@.len() <= j < final(out)@.len() ==> rows_key(sel) <= rows_key(
                    #[trigger] final(out)@[j],
                ))
            &&& partition_column_names@.len() > 0 ==> candidate_ok(
                sel,
                *bounding_partition_values,
            ) && (forall|j: int|
                old(out)@.len() <= j < final(out)@.len() ==> candidate_ok(
                    #[trigger] final(out)@[j],
                    *bounding_partition_values,
                ) && width_le(
                    spec_after_widths(sel, *bounding_partition_values),
                    spec_after_widths(final(out)@[j], *bounding_partition_values),
                ))
        },
        reader.remaining().len() == 0 ==> r is Err,
        r is Err ==> reader.remaining().len() == 0 || (partition_column_names@.len() > 0
            && exists|i: int|
            0 <= i < reader.remaining().len() && !candidate_ok(
                #[trigger] reader.remaining()[i],
                *bounding_partition_values,
            )) || *old(file_count) + sum_added_files(reader.remaining()) > u64::MAX,
{
    let ghost input = reader.remaining();
    let partitioned = partition_column_names.len() > 0;
    let mut reader = reader;
    let mut best: Option<(ManifestListEntry, Rectangle)> = None;
    let ghost mut idx: int = 0;
    proof {
        broadcast use vstd::seq_lib::group_to_multiset_ensures;
        broadcast use vstd::multiset::group_multiset_axioms;
        broadcast use vstd::multiset::lemma_multiset_empty_len;

        assert(input.skip(0) =~= input);
        assert(input.take(0) =~= Seq::<ManifestListEntry>::empty());
        assert(input.take(0).to_multiset().len() == 0);
        assert(input.take(0).to_multiset() =~= vstd::multiset::Multiset::empty());
    }
    while !reader.is_empty()
        invariant
            0 <= idx <= input.len(),
            reader.remaining() =~= input.skip(idx),
            partitioned == (partition_column_names@.len() > 0),
            *file_count + sum_added_files(input.skip(idx)) == *old(file_count) + sum_added_files(
                input,
            ),
            *file_count <= u64::MAX,
            idx == 0 <==> best is None,
            best is None ==> *out == *old(out),
            best matches Some(b) ==> {
                &&& out@.to_multiset().insert(b.0) == old(out)@.to_multiset().add(
                    input.take(idx).to_multiset(),
                )
                &&& out@.len() + 1 == old(out)@.len() + idx
                &&& forall|j: int| 0 <= j < old(out)@.len() ==> out@[j] == old(out)@[j]
                &&& !partitioned ==> (forall|j: int|
                    old(out)@.len() <= j < out@.len() ==> rows_key(b.0) <= rows_key(
                        #[trigger] out@[j],
                    ))
                &&& partitioned ==> candidate_ok(b.0, *bounding_partition_values) && b.1.widths()
                    == spec_after_widths(b.0, *bounding_partition_values) && (forall|j: int|
                    old(out)@.len() <= j < out@.len() ==> candidate_ok(
                        #[trigger] out@[j],
                        *bounding_partition_values,
                    ) && width_le(
                        spec_after_widths(b.0, *bounding_partition_values),
                        spec_after_widths(out@[j], *bounding_partition_values),
                    ))
            },
        decreases input.len() - idx,
    {
        broadcast use vstd::seq_lib::group_to_multiset_ensures;
        broadcast use vstd::multiset::group_multiset_axioms;
        broadcast use vstd::multiset::lemma_multiset_empty_len;

        let next = reader.next();
        match next {
            None => {
                proof {
                    assert(false);
                }
            },
            Some(entry) => {
                proof {
                    assert(input.skip(idx).len() > 0);
                    assert(entry == input.skip(idx)[0]);
                    assert(entry == input[idx]);
                    assert(input.skip(idx).skip(1) =~= input.skip(idx + 1));
                    assert(sum_added_files(input.skip(idx)) == files_of(entry) + sum_added_files(
                        input.skip(idx + 1),
                    ));
                    lemma_sum_added_files_nonneg(input.skip(idx + 1));
                }
                let ghost out_before = out@;
                let ghost best_before = best;
                let added: u64 = match entry.added_files_count {
                    Some(n) => if n >= 0 {
                        n as u64
                    } else {
                        0
                    },
                    None => 0,
                };
                let new_count = match file_count.checked_add(added) {
                    Some(v) => v,
                    None => {
                        proof {
                            assert(added as int == files_of(entry));
                            assert(*file_count + added > u64::MAX);
                            assert(sum_added_files(input.skip(idx)) >= added as int);
                            assert(*old(file_count) + sum_added_files(input) == *file_count
                                + sum_added_files(input.skip(idx)));
                            assert(*old(file_count) + sum_added_files(input) > u64::MAX);
                        }
                        return Err(Error::Conversion("file count".to_owned(), "u64".to_owned()));
                    },
                };
                *file_count = new_count;
                if partitioned {
                    let rect = match after_rect(&entry, bounding_partition_values) {
                        Ok(r) => r,
                        Err(err) => {
                            proof {
                                assert(!candidate_ok(entry, *bounding_partition_values));
                                assert(input[idx] == entry);
                                assert(exists|i: int|
                                    0 <= i < input.len() && !candidate_ok(
                                        #[trigger] input[i],
                                        *bounding_partition_values,
                                    ));
                            }
                            return Err(err);
                        },
                    };
                    match best {
                        None => {
                            best = Some((entry, rect));
                        },
                        Some((prev_entry, prev_rect)) => {
                            let ord = match rect.cmp_with_priority(&prev_rect) {
                                Ok(o) => o,
                                Err(err) => {
                                    return Err(err);
                                },
                            };
                            if matches!(ord, core::cmp::Ordering::Less) {
                                proof {
                                    lemma_priority_cmp_flip(rect.widths(), prev_rect.widths());
                                    assert forall|j: int|
                                        old(out)@.len() <= j < out@.len()
                                            + 1 implies candidate_ok(
                                        #[trigger] out@.push(prev_entry)[j],
                                        *bounding_partition_values,
                                    ) && width_le(
                                        spec_after_widths(entry, *bounding_partition_values),
                                        spec_after_widths(
                                            out@.push(prev_entry)[j],
                                            *bounding_partition_values,
                                        ),
                                    ) by {
                                        if j < out@.len() {
                                            assert(out@.push(prev_entry)[j] == out@[j]);
                                            lemma_width_le_trans(
                                                spec_after_widths(
                                                    entry,
                                                    *bounding_partition_values,
                                                ),
                                                spec_after_widths(
                                                    prev_entry,
                                                    *bounding_partition_values,
                                                ),
                                                spec_after_widths(
                                                    out@[j],
                                                    *bounding_partition_values,
                                                ),
                                            );
                                        } else {
                                            assert(out@.push(prev_entry)[j] == prev_entry);
                                        }
                                    }
                                }
                                out.push(prev_entry);
                                best = Some((entry, rect));
                            } else {
                                proof {
                                    lemma_priority_cmp_flip(rect.widths(), prev_rect.widths());
                                    assert(width_le(
                                        spec_after_widths(prev_entry, *bounding_partition_values),
                                        spec_after_widths(entry, *bounding_partition_values),
                                    ));
                                }
                                out.push(entry);
                                best = Some((prev_entry, prev_rect));
                            }
                        },
                    }
                } else {
                    match best {
                        None => {
                            best = Some((entry, Rectangle::degenerate(Vec::new())));
                        },
                        Some((prev_entry, prev_rect)) => {
                            let replaces: bool = match (
                                &entry.added_rows_count,
                                &prev_entry.added_rows_count,
                            ) {
                                (Some(a), Some(b)) => *a < *b,
                                (Some(_), None) => true,
                                (None, _) => false,
                            };
                            if replaces {
                                out.push(prev_entry);
                                best = Some((entry, prev_rect));
                            } else {
                                out.push(entry);
                                best = Some((prev_entry, prev_rect));
                            }
                        },
                    }
                }
                proof {
                    let b0 = best->Some_0.0;
                    assert(input.take(idx + 1) =~= input.take(idx).push(entry));
                    assert(input.take(idx + 1).to_multiset() == input.take(
                        idx,
                    ).to_multiset().insert(entry));
                    match best_before {
                        None => {
                            assert(out@ == old(out)@);
                            assert(b0 == entry);
                            assert(idx == 0);
                            assert(out@.to_multiset().insert(b0) =~= old(out)@.to_multiset().add(
                                input.take(idx + 1).to_multiset(),
                            ));
                        },
                        Some(pb) => {
                            assert((out@ == out_before.push(entry) && b0 == pb.0) || (out@
                                == out_before.push(pb.0) && b0 == entry));
                            assert(out_before.to_multiset().insert(pb.0)
                                == old(out)@.to_multiset().add(input.take(idx).to_multiset()));
                            if out@ == out_before.push(entry) && b0 == pb.0 {
                                assert(out@.to_multiset() =~= out_before.to_multiset().insert(
                                    entry,
                                ));
                                assert(out@.to_multiset().insert(b0)
                                    =~= out_before.to_multiset().insert(pb.0).insert(entry));
                                assert(out@.to_multiset().insert(b0)
                                    =~= old(out)@.to_multiset().add(
                                    input.take(idx).to_multiset(),
                                ).insert(entry));
                                assert(out@.to_multiset().insert(b0)
                                    =~= old(out)@.to_multiset().add(
                                    input.take(idx + 1).to_multiset(),
                                ));
                            } else {
                                assert(out@.to_multiset().insert(b0)
                                    =~= out_before.to_multiset().insert(pb.0).insert(entry));
                                assert(out@.to_multiset().insert(b0)
                                    =~= old(out)@.to_multiset().add(
                                    input.take(idx + 1).to_multiset(),
                                ));
                            }
                        },
                    }
                    idx = idx + 1;
                }
            },
        }
    }
    proof {
        assert(input.skip(idx).len() == 0);
        assert(idx == input.len());
        assert(input.take(input.len() as int) =~= input);
    }
    match best {
        None => Err(Error::NotFound("Manifest".to_owned(), "list".to_owned())),
        Some((entry, _)) => Ok(entry),
    }
}

/// The value an entry's partition tuple holds under `name`.
fn entry_value(e: &ManifestEntry, name: &String) -> (r: Option<Value>)
    ensures
        r == struct_value(e.data_file.partition, name@),
{
    let idx = e.data_file.partition.find(name);
    proof {
        crate::search::lemma_first_where_props(
            e.data_file.partition.fields@,
            crate::values::field_named(name@),
        );
    }
    match idx {
        Some(i) => match &e.data_file.partition.fields[i].value {
            Some(v) => Some(v.clone()),
            None => None,
        },
        None => None,
    }
}

/// Whether the split routes an entry to the low child: its value along
/// the split column lies strictly below the pivot; an absent or null
/// value routes low as well.
pub open spec fn routes_low(e: ManifestEntry, name: Seq<char>, pivot: Value) -> bool {
    match struct_value(e.data_file.partition, name) {
        None => true,
        Some(v) => val_lt(v, pivot),
    }
}

/// The subsequence of entries the split routes to the low child.
pub open spec fn low_part(s: Seq<ManifestEntry>, name: Seq<char>, pivot: Value) -> Seq<
    ManifestEntry,
>
    decreases s.len(),
{
    if s.len() == 0 {
        Seq::empty()
    } else if routes_low(s.last(), name, pivot) {
        low_part(s.drop_last(), name, pivot).push(s.last())
    } else {
        low_part(s.drop_last(), name, pivot)
    }
}

/// The subsequence of entries the split routes to the high child.
pub open spec fn high_part(s: Seq<ManifestEntry>, name: Seq<char>, pivot: Value) -> Seq<
    ManifestEntry,
>
    decreases s.len(),
{
    if s.len() == 0 {
        Seq::empty()
    } else if !routes_low(s.last(), name, pivot) {
        high_part(s.drop_last(), name, pivot).push(s.last())
    } else {
        high_part(s.drop_last(), name, pivot)
    }
}

/// The data-file locations of a run of entries, as a multiset.
pub open spec fn paths_of_entries(s: Seq<ManifestEntry>) -> vstd::multiset::Multiset<Seq<char>>
    decreases s.len(),
{
    if s.len() == 0 {
        vstd::multiset::Multiset::empty()
    } else {
        paths_of_entries(s.drop_last()).insert(s.last().data_file.file_path@)
    }
}

/// The two children of a split carry exactly the entries of the parent.
pub proof fn lemma_split_conserves(s: Seq<ManifestEntry>, name: Seq<char>, pivot: Value)
    ensures
        low_part(s, name, pivot).to_multiset().add(high_part(s, name, pivot).to_multiset())
            == s.to_multiset(),
        low_part(s, name, pivot).len() + high_part(s, name, pivot).len() == s.len(),
        paths_of_entries(low_part(s, name, pivot)).add(
            paths_of_entries(high_part(s, name, pivot)),
        ) == paths_of_entries(s),
    decreases s.len(),
{
    broadcast use vstd::seq_lib::group_to_multiset_ensures;

    broadcast use vstd::multiset::group_multiset_axioms;

    if s.len() == 0 {
        assert(low_part(s, name, pivot).to_multiset().add(
            high_part(s, name, pivot).to_multiset(),
        ) =~= s.to_multiset());
        assert(paths_of_entries(low_part(s, name, pivot)).add(
            paths_of_entries(high_part(s, name, pivot)),
        ) =~= paths_of_entries(s));
    } else {
        lemma_split_conserves(s.drop_last(), name, pivot);
        assert(s =~= s.drop_last().push(s.last()));
        assert(s.to_multiset() == s.drop_last().to_multiset().insert(s.last()));
        let lo = low_part(s.drop_last(), name, pivot);
        let hi = high_part(s.drop_last(), name, pivot);
        if routes_low(s.last(), name, pivot) {
            assert(lo.push(s.last()).to_multiset() == lo.to_multiset().insert(s.last()));
            assert(lo.to_multiset().insert(s.last()).add(hi.to_multiset()) =~= lo.to_multiset().add(
                hi.to_multiset(),
            ).insert(s.last()));
            assert(lo.push(s.last()).drop_last() =~= lo);
            assert(paths_of_entries(lo.push(s.last())) == paths_of_entries(lo).insert(
                s.last().data_file.file_path@,
            ));
            assert(paths_of_entries(lo).insert(s.last().data_file.file_path@).add(
                paths_of_entries(hi),
            ) =~= paths_of_entries(lo).add(paths_of_entries(hi)).insert(
                s.last().data_file.file_path@,
            ));
        } else {
            assert(hi.push(s.last()).to_multiset() == hi.to_multiset().insert(s.last()));
            assert(lo.to_multiset().add(hi.to_multiset().insert(s.last())) =~= lo.to_multiset().add(
                hi.to_multiset(),
            ).insert(s.last()));
            assert(hi.push(s.last()).drop_last() =~= hi);
            assert(paths_of_entries(hi.push(s.last())) == paths_of_entries(hi).insert(
                s.last().data_file.file_path@,
            ));
            assert(paths_of_entries(lo).add(paths_of_entries(hi).insert(
                s.last().data_file.file_path@,
            )) =~= paths_of_entries(lo).add(paths_of_entries(hi)).insert(
                s.last().data_file.file_path@,
            ));
        }
    }
}

/// The present values of the entries along the column `name`, in order.
pub open spec fn values_along(s: Seq<ManifestEntry>, name: Seq<char>) -> Seq<Value>
    decreases s.len(),
{
    if s.len() == 0 {
        Seq::empty()
    } else {
        let rest = values_along(s.drop_last(), name);
        match struct_value(s.last().data_file.partition, name) {
            Some(v) => rest.push(v),
            None => rest,
        }
    }
}

/// Whether every entry carries a value along the column `name`.
pub open spec fn all_present(s: Seq<ManifestEntry>, name: Seq<char>) -> bool {
    forall|i: int|
        0 <= i < s.len() ==> struct_value((#[trigger] s[i]).data_file.partition, name) is Some
}

/// How many values lie strictly below the pivot.
pub open spec fn count_lt_vals(vals: Seq<Value>, p: Value) -> int
    decreases vals.len(),
{
    if vals.len() == 0 {
        0
    } else {
        count_lt_vals(vals.drop_last(), p) + (if val_lt(vals.last(), p) {
            1int
        } else {
            0int
        })
    }
}

/// How many values lie at or below the pivot.
pub open spec fn count_le_vals(vals: Seq<Value>, p: Value) -> int
    decreases vals.len(),
{
    if vals.len() == 0 {
        0
    } else {
        count_le_vals(vals.drop_last(), p) + (if crate::values::val_le(vals.last(), p) {
            1int
        } else {
            0int
        })
    }
}

/// How many values equal the pivot in content.
pub open spec fn count_eq_vals(vals: Seq<Value>, p: Value) -> int
    decreases vals.len(),
{
    if vals.len() == 0 {
        0
    } else {
        count_eq_vals(vals.drop_last(), p) + (if crate::values::val_eq(vals.last(), p) {
            1int
        } else {
            0int
        })
    }
}

/// Whether the values are pairwise of one type and pairwise distinct in
/// content.
pub open spec fn distinct_comparable(vals: Seq<Value>) -> bool {
    &&& forall|i: int, j: int|
        0 <= i < vals.len() && 0 <= j < vals.len() ==> comparable(
            #[trigger] vals[i],
            #[trigger] vals[j],
        )
    &&& forall|i: int, j: int|
        0 <= i < j < vals.len() ==> !crate::values::val_eq(#[trigger] vals[i], #[trigger] vals[j])
}

/// When every entry carries a value, there are as many values as
/// entries.
proof fn lemma_values_along_len(s: Seq<ManifestEntry>, name: Seq<char>)
    requires
        all_present(s, name),
    ensures
        values_along(s, name).len() == s.len(),
    decreases s.len(),
{
    if s.len() != 0 {
        assert(s.last() == s[s.len() - 1]);
        assert forall|i: int| 0 <= i < s.drop_last().len() implies struct_value(
            (#[trigger] s.drop_last()[i]).data_file.partition,
            name,
        ) is Some by {
            assert(s.drop_last()[i] == s[i]);
        }
        lemma_values_along_len(s.drop_last(), name);
    }
}

/// When every entry carries a value, the low child holds exactly the
/// entries whose value lies strictly below the pivot.
proof fn lemma_low_len(s: Seq<ManifestEntry>, name: Seq<char>, pivot: Value)
    requires
        all_present(s, name),
    ensures
        low_part(s, name, pivot).len() == count_lt_vals(values_along(s, name), pivot),
    decreases s.len(),
{
    if s.len() != 0 {
        assert(s.last() == s[s.len() - 1]);
        assert forall|i: int| 0 <= i < s.drop_last().len() implies struct_value(
            (#[trigger] s.drop_last()[i]).data_file.partition,
            name,
        ) is Some by {
            assert(s.drop_last()[i] == s[i]);
        }
        lemma_low_len(s.drop_last(), name, pivot);
        let v = struct_value(s.last().data_file.partition, name)->Some_0;
        assert(values_along(s, name) == values_along(s.drop_last(), name).push(v));
        assert(values_along(s, name).drop_last() =~= values_along(s.drop_last(), name));
        assert(values_along(s, name).last() == v);
    }
}

/// At most one value equals a pivot among pairwise distinct values.
proof fn lemma_count_eq_at_most_one(vals: Seq<Value>, p: Value, c: int)
    requires
        distinct_comparable(vals),
        0 <= c < vals.len(),
        p == vals[c],
    ensures
        count_eq_vals(vals, p) <= 1,
    decreases vals.len(),
{
    if vals.len() != 0 {
        let last = vals.last();
        assert(last == vals[vals.len() - 1]);
        if c == vals.len() - 1 {
            // the pivot is the last value: nothing earlier equals it
            assert forall|k: int| 0 <= k < vals.drop_last().len() implies !crate::values::val_eq(
                #[trigger] vals.drop_last()[k],
                p,
            ) by {
                assert(vals.drop_last()[k] == vals[k]);
                crate::values::lemma_val_eq_sym_trans(vals[k], p, p);
                if crate::values::val_eq(vals[k], p) {
                    assert(!crate::values::val_eq(vals[k], vals[vals.len() - 1]));
                }
            }
            lemma_count_eq_none(vals.drop_last(), p);
        } else {
            assert forall|i: int, j: int|
                0 <= i < vals.drop_last().len() && 0 <= j < vals.drop_last().len() implies comparable(
                #[trigger] vals.drop_last()[i],
                #[trigger] vals.drop_last()[j],
            ) by {
                assert(vals.drop_last()[i] == vals[i]);
                assert(vals.drop_last()[j] == vals[j]);
            }
            assert forall|i: int, j: int|
                0 <= i < j < vals.drop_last().len() implies !crate::values::val_eq(
                #[trigger] vals.drop_last()[i],
                #[trigger] vals.drop_last()[j],
            ) by {
                assert(vals.drop_last()[i] == vals[i]);
                assert(vals.drop_last()[j] == vals[j]);
            }
            assert(vals.drop_last()[c] == vals[c]);
            lemma_count_eq_at_most_one(vals.drop_last(), p, c);
            // the last value is distinct from the pivot
            assert(!crate::values::val_eq(vals[c], vals[vals.len() - 1]));
            if crate::values::val_eq(last, p) {
                crate::values::lemma_val_eq_sym_trans(last, p, p);
                assert(crate::values::val_eq(p, last));
                crate::values::lemma_val_eq_sym_trans(vals[c], p, last);
            }
        }
    }
}

/// No value equals a pivot none of them equals.
proof fn lemma_count_eq_none(vals: Seq<Value>, p: Value)
    requires
        forall|k: int| 0 <= k < vals.len() ==> !crate::values::val_eq(#[trigger] vals[k], p),
    ensures
        count_eq_vals(vals, p) == 0,
    decreases vals.len(),
{
    if vals.len() != 0 {
        assert(vals.last() == vals[vals.len() - 1]);
        assert forall|k: int| 0 <= k < vals.drop_last().len() implies !crate::values::val_eq(
            #[trigger] vals.drop_last()[k],
            p,
        ) by {
            assert(vals.drop_last()[k] == vals[k]);
        }
        lemma_count_eq_none(vals.drop_last(), p);
    }
}

/// At-or-below splits into strictly-below and equal, for values of the
/// pivot's type.
proof fn lemma_count_le_split(vals: Seq<Value>, p: Value)
    requires
        forall|i: int| 0 <= i < vals.len() ==> comparable(#[trigger] vals[i], p),
    ensures
        count_le_vals(vals, p) <= count_lt_vals(vals, p) + count_eq_vals(vals, p),
    decreases vals.len(),
{
    if vals.len() != 0 {
        assert(vals.last() == vals[vals.len() - 1]);
        assert forall|i: int| 0 <= i < vals.drop_last().len() implies comparable(
            #[trigger] vals.drop_last()[i],
            p,
        ) by {
            assert(vals.drop_last()[i] == vals[i]);
        }
        lemma_count_le_split(vals.drop_last(), p);
    }
}

/// The dimension of the rectangle with the largest width; the first of
/// equally wide dimensions.
fn largest_dimension(rect: &Rectangle) -> (r: Result<usize, Error>)
    ensures
        r matches Ok(d) ==> {
            let w = rect.widths()[d as int];
            &&& (d as int) < rect.spec_dims()
            &&& forall|j: int| 0 <= j < rect.spec_dims() ==> rect.widths()[j] <= w
            &&& forall|j: int| 0 <= j < d as int ==> rect.widths()[j] < w
        },
        r is Err <==> rect.spec_dims() == 0,
{
    proof {
        use_type_invariant(rect);
    }
    let n = rect.dims();
    if n == 0 {
        return Err(Error::NotFound("Split".to_owned(), "dimension".to_owned()));
    }
    let mut best_d: usize = 0;
    let mut best_w: i128 = rect.min_at(0).width_to(rect.max_at(0));
    let mut d: usize = 1;
    while d < n
        invariant
            1 <= d <= n,
            n == rect.spec_dims(),
            rect.wf(),
            (best_d as int) < d,
            best_w as int == rect.widths()[best_d as int],
            forall|j: int| 0 <= j < d ==> rect.widths()[j] <= best_w as int,
            forall|j: int| 0 <= j < best_d as int ==> rect.widths()[j] < best_w as int,
        decreases n - d,
    {
        let w = rect.min_at(d).width_to(rect.max_at(d));
        if w > best_w {
            best_d = d;
            best_w = w;
        }
        d = d + 1;
    }
    Ok(best_d)
}

/// A value halfway between two ordered non-string values, clamped into
/// their interval; for strings, the lower value.
fn midpoint(lo: &Value, hi: &Value) -> (r: Value)
    requires
        comparable(*lo, *hi),
        crate::values::val_le(*lo, *hi),
    ensures
        comparable(*lo, r),
{
    match (lo, hi) {
        (Value::Boolean(_), _) => lo.clone(),
        (Value::Str(_), _) => lo.clone(),
        (Value::Int(a), Value::Int(b)) => {
            let m = (*a as i128 + *b as i128) / 2;
            let c = clamp_i128(m, *a as i128, *b as i128);
            Value::Int(c as i32)
        },
        (Value::Long(a), Value::Long(b)) => {
            let m = (*a as i128 + *b as i128) / 2;
            let c = clamp_i128(m, *a as i128, *b as i128);
            Value::Long(c as i64)
        },
        (Value::Date(a), Value::Date(b)) => {
            let m = (*a as i128 + *b as i128) / 2;
            let c = clamp_i128(m, *a as i128, *b as i128);
            Value::Date(c as i32)
        },
        (Value::Time(a), Value::Time(b)) => {
            let m = (*a as i128 + *b as i128) / 2;
            let c = clamp_i128(m, *a as i128, *b as i128);
            Value::Time(c as i64)
        },
        (Value::Timestamp(a), Value::Timestamp(b)) => {
            let m = (*a as i128 + *b as i128) / 2;
            let c = clamp_i128(m, *a as i128, *b as i128);
            Value::Timestamp(c as i64)
        },
        (Value::TimestampTz(a), Value::TimestampTz(b)) => {
            let m = (*a as i128 + *b as i128) / 2;
            let c = clamp_i128(m, *a as i128, *b as i128);
            Value::TimestampTz(c as i64)
        },
        _ => lo.clone(),
    }
}

/// `v` forced into the interval `[a, b]`.
fn clamp_i128(v: i128, a: i128, b: i128) -> (r: i128)
    requires
        a <= b,
    ensures
        a <= r <= b,
{
    if v < a {
        a
    } else if v > b {
        b
    } else {
        v
    }
}

/// The pivot of a split: the counted median of the present values along
/// the split column, or the midpoint of the bounds where no value is
/// present.  Fails with `Type` on incomparable values, and with
/// `NotFound` when no candidate splits the values evenly enough.
fn split_pivot(entries: &Vec<ManifestEntry>, rect: &Rectangle, name: &String, d: usize) -> (r:
    Result<Value, Error>)
    requires
        (d as int) < rect.spec_dims(),
    ensures
        r matches Ok(p) ==> (values_along(entries@, name@).len() > 0 ==> {
            let vals = values_along(entries@, name@);
            &&& vals.contains(p)
            &&& count_lt_vals(vals, p) <= vals.len() / 2
            &&& count_le_vals(vals, p) > vals.len() / 2
        }),
{
    let mut vals: Vec<Value> = Vec::new();
    let n = entries.len();
    let mut i: usize = 0;
    proof {
        assert(values_along(entries@.take(0), name@) =~= Seq::<Value>::empty());
    }
    while i < n
        invariant
            i <= n,
            n == entries@.len(),
            vals@ == values_along(entries@.take(i as int), name@),
        decreases n - i,
    {
        proof {
            assert(entries@.take(i + 1).drop_last() =~= entries@.take(i as int));
            assert(entries@.take(i + 1).last() == entries@[i as int]);
        }
        match entry_value(&entries[i], name) {
            Some(v) => {
                vals.push(v);
            },
            None => {},
        }
        i = i + 1;
    }
    proof {
        assert(entries@.take(n as int) =~= entries@);
    }
    let ghost all_vals = values_along(entries@, name@);
    if vals.len() == 0 {
        proof {
            use_type_invariant(rect);
        }
        return Ok(midpoint(rect.min_at(d), rect.max_at(d)));
    }
    // counted median: the first candidate with no more than half the
    // values strictly below it and more than half at or below it
    let m = vals.len();
    let mut c: usize = 0;
    while c < m
        invariant
            c <= m,
            m == vals@.len(),
            m > 0,
            vals@ == all_vals,
            all_vals == values_along(entries@, name@),
        decreases m - c,
    {
        let mut below: usize = 0;
        let mut at_or_below: usize = 0;
        let mut k: usize = 0;
        proof {
            assert(vals@.take(0) =~= Seq::<Value>::empty());
        }
        while k < m
            invariant
                k <= m,
                m == vals@.len(),
                c < m,
                vals@ == all_vals,
                below <= k,
                at_or_below <= k,
                below as int == count_lt_vals(vals@.take(k as int), vals@[c as int]),
                at_or_below as int == count_le_vals(vals@.take(k as int), vals@[c as int]),
            decreases m - k,
        {
            proof {
                assert(vals@.take(k + 1).drop_last() =~= vals@.take(k as int));
                assert(vals@.take(k + 1).last() == vals@[k as int]);
            }
            match vals[k].compare(&vals[c]) {
                Ok(o) => {
                    if matches!(o, core::cmp::Ordering::Less) {
                        below = below + 1;
                        at_or_below = at_or_below + 1;
                    } else if matches!(o, core::cmp::Ordering::Equal) {
                        at_or_below = at_or_below + 1;
                    }
                },
                Err(e) => {
                    return Err(e);
                },
            }
            k = k + 1;
        }
        proof {
            assert(vals@.take(m as int) =~= vals@);
        }
        if below <= m / 2 && at_or_below > m / 2 {
            let p = vals[c].clone();
            proof {
                assert(p == vals@[c as int]);
                assert(all_vals.contains(p));
            }
            return Ok(p);
        }
        c = c + 1;
    }
    Err(Error::NotFound("Split".to_owned(), "pivot".to_owned()))
}

/// A split's children keep a column's values present, distinct,
/// one-typed, and drawn from the parent's values.
proof fn lemma_part_preserves(s: Seq<ManifestEntry>, name: Seq<char>, pivot: Value, col: Seq<char>)
    requires
        all_present(s, col),
        distinct_comparable(values_along(s, col)),
    ensures
        all_present(low_part(s, name, pivot), col),
        all_present(high_part(s, name, pivot), col),
        distinct_comparable(values_along(low_part(s, name, pivot), col)),
        distinct_comparable(values_along(high_part(s, name, pivot), col)),
        forall|k: int|
            0 <= k < values_along(low_part(s, name, pivot), col).len() ==> values_along(
                s,
                col,
            ).contains(#[trigger] values_along(low_part(s, name, pivot), col)[k]),
        forall|k: int|
            0 <= k < values_along(high_part(s, name, pivot), col).len() ==> values_along(
                s,
                col,
            ).contains(#[trigger] values_along(high_part(s, name, pivot), col)[k]),
    decreases s.len(),
{
    if s.len() != 0 {
        let prev = s.drop_last();
        let last = s.last();
        assert(last == s[s.len() - 1]);
        let vs = values_along(s, col);
        let vp = values_along(prev, col);
        assert forall|i: int| 0 <= i < prev.len() implies struct_value(
            (#[trigger] prev[i]).data_file.partition,
            col,
        ) is Some by {
            assert(prev[i] == s[i]);
        }
        lemma_values_along_len(s, col);
        lemma_values_along_len(prev, col);
        let v_last = struct_value(last.data_file.partition, col)->Some_0;
        assert(vs == vp.push(v_last));
        assert forall|i: int| 0 <= i < vp.len() implies vp[i] == vs[i] by {
            assert(vp.push(v_last)[i] == vp[i]);
        }
        assert forall|i: int, j: int|
            0 <= i < vp.len() && 0 <= j < vp.len() implies comparable(
            #[trigger] vp[i],
            #[trigger] vp[j],
        ) by {
            assert(comparable(vs[i], vs[j]));
        }
        assert forall|i: int, j: int| 0 <= i < j < vp.len() implies !crate::values::val_eq(
            #[trigger] vp[i],
            #[trigger] vp[j],
        ) by {
            assert(!crate::values::val_eq(vs[i], vs[j]));
        }
        lemma_part_preserves(prev, name, pivot, col);
        // the children of `s` are the children of its front, with the
        // last entry appended to one of them
        child_extension_facts(
            s,
            name,
            pivot,
            col,
            low_part(prev, name, pivot),
            low_part(s, name, pivot),
            true,
        );
        child_extension_facts(
            s,
            name,
            pivot,
            col,
            high_part(prev, name, pivot),
            high_part(s, name, pivot),
            false,
        );
    }
}

/// The facts `lemma_part_preserves` needs of one child after the last
/// entry is routed: presence, distinctness and membership carry over,
/// whether or not the child received the entry.
proof fn child_extension_facts(
    s: Seq<ManifestEntry>,
    name: Seq<char>,
    pivot: Value,
    col: Seq<char>,
    prev_child: Seq<ManifestEntry>,
    child: Seq<ManifestEntry>,
    low: bool,
)
    requires
        s.len() > 0,
        all_present(s, col),
        distinct_comparable(values_along(s, col)),
        all_present(prev_child, col),
        distinct_comparable(values_along(prev_child, col)),
        forall|k: int|
            0 <= k < values_along(prev_child, col).len() ==> values_along(
                s.drop_last(),
                col,
            ).contains(#[trigger] values_along(prev_child, col)[k]),
        prev_child == if low {
            low_part(s.drop_last(), name, pivot)
        } else {
            high_part(s.drop_last(), name, pivot)
        },
        child == if low {
            low_part(s, name, pivot)
        } else {
            high_part(s, name, pivot)
        },
    ensures
        all_present(child, col),
        distinct_comparable(values_along(child, col)),
        forall|k: int|
            0 <= k < values_along(child, col).len() ==> values_along(s, col).contains(
                #[trigger] values_along(child, col)[k],
            ),
{
    let prev = s.drop_last();
    let last = s.last();
    assert(last == s[s.len() - 1]);
    assert forall|i: int| 0 <= i < prev.len() implies struct_value(
        (#[trigger] prev[i]).data_file.partition,
        col,
    ) is Some by {
        assert(prev[i] == s[i]);
    }
    lemma_values_along_len(s, col);
    lemma_values_along_len(prev, col);
    let vs = values_along(s, col);
    let vp = values_along(prev, col);
    let v_last = struct_value(last.data_file.partition, col)->Some_0;
    assert(vs == vp.push(v_last));
    assert(vs[vs.len() - 1] == v_last);
    let took = if low {
        routes_low(last, name, pivot)
    } else {
        !routes_low(last, name, pivot)
    };
    if !took {
        assert(child == prev_child);
        assert forall|k: int|
            0 <= k < values_along(child, col).len() implies vs.contains(
            #[trigger] values_along(child, col)[k],
        ) by {
            let w = values_along(child, col)[k];
            assert(vp.contains(w));
            let iw = choose|iw: int| 0 <= iw < vp.len() && vp[iw] == w;
            assert(vs[iw] == vp[iw]);
        }
    } else {
        assert(child == prev_child.push(last));
        assert(child.drop_last() =~= prev_child);
        assert(child.last() == last);
        let vc = values_along(child, col);
        let vpc = values_along(prev_child, col);
        assert forall|i: int| 0 <= i < child.len() implies struct_value(
            (#[trigger] child[i]).data_file.partition,
            col,
        ) is Some by {
            if i < prev_child.len() {
                assert(child[i] == prev_child[i]);
            } else {
                assert(child[i] == last);
            }
        }
        assert(vc == vpc.push(v_last));
        assert forall|i: int| 0 <= i < vpc.len() implies vc[i] == vpc[i] by {
            assert(vpc.push(v_last)[i] == vpc[i]);
        }
        // membership: old values sit in the front of `vs`, the new one
        // at its back
        assert forall|k: int| 0 <= k < vc.len() implies vs.contains(#[trigger] vc[k]) by {
            if k < vpc.len() {
                let w = vpc[k];
                assert(vp.contains(w));
                let iw = choose|iw: int| 0 <= iw < vp.len() && vp[iw] == w;
                assert(vs[iw] == vp[iw]);
                assert(vc[k] == w);
            } else {
                assert(vc[k] == v_last);
                assert(vs[vs.len() - 1] == v_last);
            }
        }
        // distinctness: the appended value differs from every carried
        // one, because it is the last value of `vs` and each carried one
        // sits strictly before it
        assert forall|i: int, j: int|
            0 <= i < vc.len() && 0 <= j < vc.len() implies comparable(
            #[trigger] vc[i],
            #[trigger] vc[j],
        ) by {
            let wi = vc[i];
            let wj = vc[j];
            assert(vs.contains(wi));
            assert(vs.contains(wj));
            let ii = choose|ii: int| 0 <= ii < vs.len() && vs[ii] == wi;
            let jj = choose|jj: int| 0 <= jj < vs.len() && vs[jj] == wj;
            assert(comparable(vs[ii], vs[jj]));
        }
        assert forall|i: int, j: int| 0 <= i < j < vc.len() implies !crate::values::val_eq(
            #[trigger] vc[i],
            #[trigger] vc[j],
        ) by {
            if j < vpc.len() {
                assert(!crate::values::val_eq(vpc[i], vpc[j]));
            } else {
                // vc[j] is the last value of vs; vc[i] sits among the
                // front values of vs
                let w = vpc[i];
                assert(vc[i] == w);
                assert(vp.contains(w));
                let iw = choose|iw: int| 0 <= iw < vp.len() && vp[iw] == w;
                assert(vs[iw] == w);
                assert(iw < vs.len() - 1);
                assert(!crate::values::val_eq(vs[iw], vs[vs.len() - 1]));
                assert(vc[j] == v_last);
            }
        }
    }
}

/// Entries fit for a provably balanced split: along every partition
/// column every entry carries a value, and the values are pairwise of
/// one type and pairwise distinct in content.
pub open spec fn balanced_inputs(s: Seq<ManifestEntry>, names: Seq<String>) -> bool {
    forall|j: int|
        0 <= j < names.len() ==> all_present(s, (#[trigger] names[j])@) && distinct_comparable(
            values_along(s, names[j]@),
        )
}

/// A split at a counted median of present, distinct, one-typed values
/// leaves at most half the entries, rounded up, in either child.
proof fn lemma_split_balance(s: Seq<ManifestEntry>, name: Seq<char>, pivot: Value)
    requires
        all_present(s, name),
        distinct_comparable(values_along(s, name)),
        values_along(s, name).len() > 0 ==> ({
            let vals = values_along(s, name);
            &&& vals.contains(pivot)
            &&& count_lt_vals(vals, pivot) <= vals.len() / 2
            &&& count_le_vals(vals, pivot) > vals.len() / 2
        }),
    ensures
        low_part(s, name, pivot).len() <= (s.len() + 1) / 2,
        high_part(s, name, pivot).len() <= (s.len() + 1) / 2,
{
    lemma_values_along_len(s, name);
    lemma_split_conserves(s, name, pivot);
    lemma_low_len(s, name, pivot);
    if s.len() > 0 {
        let vals = values_along(s, name);
        assert(vals.contains(pivot));
        let c = choose|c: int| 0 <= c < vals.len() && vals[c] == pivot;
        assert forall|i: int| 0 <= i < vals.len() implies comparable(#[trigger] vals[i], pivot) by {
            assert(comparable(vals[i], vals[c]));
        }
        lemma_count_le_split(vals, pivot);
        lemma_count_eq_at_most_one(vals, pivot, c);
    }
}

/// Split a group of entries once along the widest dimension of its
/// bounding rectangle: entries strictly below the pivot go low, the
/// rest go high, and the child rectangles are derived from the pivot.
fn split_once(entries: Vec<ManifestEntry>, rect: &Rectangle, partition_column_names: &Vec<String>)
    -> (r: Result<(Vec<ManifestEntry>, Vec<ManifestEntry>, Rectangle, Rectangle), Error>)
    ensures
        r matches Ok(four) ==> {
            &&& exists|d: int, pivot: Value|
                #![auto]
                0 <= d < partition_column_names@.len() && four.0@ == low_part(
                    entries@,
                    partition_column_names@[d]@,
                    pivot,
                ) && four.1@ == high_part(entries@, partition_column_names@[d]@, pivot)
            &&& balanced_inputs(entries@, partition_column_names@) ==> four.0@.len() <= (
            entries@.len() + 1) / 2 && four.1@.len() <= (entries@.len() + 1) / 2
        },
{
    proof {
        use_type_invariant(rect);
    }
    let d = match largest_dimension(rect) {
        Ok(d) => d,
        Err(e) => {
            return Err(e);
        },
    };
    if d >= partition_column_names.len() {
        return Err(Error::NotFound("Partition column".to_owned(), "split dimension".to_owned()));
    }
    let name = &partition_column_names[d];
    let pivot = match split_pivot(&entries, rect, name, d) {
        Ok(p) => p,
        Err(e) => {
            return Err(e);
        },
    };
    // child rectangles: the pivot caps the low child and floors the high
    let mut low_min: Vec<Value> = Vec::new();
    let mut low_max: Vec<Value> = Vec::new();
    let mut high_min: Vec<Value> = Vec::new();
    let mut high_max: Vec<Value> = Vec::new();
    let dims = rect.dims();
    let mut j: usize = 0;
    while j < dims
        invariant
            j <= dims,
            dims == rect.spec_dims(),
            rect.wf(),
            (d as int) < rect.spec_dims(),
        decreases dims - j,
    {
        if j == d {
            low_min.push(rect.min_at(j).clone());
            low_max.push(pivot.clone());
            high_min.push(pivot.clone());
            high_max.push(rect.max_at(j).clone());
        } else {
            low_min.push(rect.min_at(j).clone());
            low_max.push(rect.max_at(j).clone());
            high_min.push(rect.min_at(j).clone());
            high_max.push(rect.max_at(j).clone());
        }
        j = j + 1;
    }
    let low_rect = match Rectangle::new(low_min, low_max) {
        Ok(r) => r,
        Err(e) => {
            return Err(e);
        },
    };
    let high_rect = match Rectangle::new(high_min, high_max) {
        Ok(r) => r,
        Err(e) => {
            return Err(e);
        },
    };
    let mut low: Vec<ManifestEntry> = Vec::new();
    let mut high: Vec<ManifestEntry> = Vec::new();
    let ghost input = entries@;
    let ghost pname = name@;
    let mut entries = entries;
    let n = entries.len();
    let mut i: usize = 0;
    while i < n
        invariant
            i <= n,
            n == input.len(),
            pname == name@,
            entries@ =~= input.skip(i as int),
            low@ == low_part(input.take(i as int), pname, pivot),
            high@ == high_part(input.take(i as int), pname, pivot),
        decreases n - i,
    {
        let e = entries.remove(0);
        proof {
            assert(e == input[i as int]);
        }
        let looked_up = entry_value(&e, name);
        proof {
            assert(looked_up == struct_value(input[i as int].data_file.partition, pname));
        }
        let goes_low: bool = match &looked_up {
            None => true,
            Some(v) => match v.compare(&pivot) {
                Ok(o) => matches!(o, core::cmp::Ordering::Less),
                Err(err) => {
                    return Err(err);
                },
            },
        };
        proof {
            assert(goes_low == routes_low(input[i as int], pname, pivot));
            assert(input.take(i + 1).drop_last() =~= input.take(i as int));
            assert(input.take(i + 1).last() == input[i as int]);
            assert(entries@ =~= input.skip(i + 1));
        }
        if goes_low {
            low.push(e);
        } else {
            high.push(e);
        }
        i = i + 1;
    }
    proof {
        assert(input.take(n as int) =~= input);
        assert(low@ == low_part(input, pname, pivot) && high@ == high_part(input, pname, pivot));
        assert((d as int) < partition_column_names@.len() && low@ == low_part(
            input,
            partition_column_names@[d as int]@,
            pivot,
        ) && high@ == high_part(input, partition_column_names@[d as int]@, pivot));
        if balanced_inputs(input, partition_column_names@) {
            lemma_split_balance(input, pname, pivot);
        }
    }
    Ok((low, high, low_rect, high_rect))
}

/// The total halved, rounding up, `n` times: the largest size a group
/// can have after `n` balanced splits.
pub open spec fn halved_up(t: int, n: nat) -> int
    decreases n,
{
    if n == 0 {
        t
    } else {
        halved_up((t + 1) / 2, (n - 1) as nat)
    }
}

/// Halving up is monotone in the total.
proof fn lemma_halved_up_monotone(a: int, b: int, n: nat)
    requires
        a <= b,
    ensures
        halved_up(a, n) <= halved_up(b, n),
    decreases n,
{
    if n > 0 {
        lemma_halved_up_monotone((a + 1) / 2, (b + 1) / 2, (n - 1) as nat);
    }
}

/// Split a stream of entries into `2^n_splits` balanced groups: each of
/// `n_splits` rounds splits every group along the widest dimension of
/// its rectangle at a pivot value, the child rectangles being derived
/// from the pivot so that recursive splits are deterministic given the
/// input bounds.  The groups together hold exactly the input entries,
/// and where every entry carries a value along every partition column,
/// of one type per column and pairwise distinct, no group holds more
/// than the total halved (rounding up) `n_splits` times.
pub fn split_datafiles(
    entries: Vec<ManifestEntry>,
    rectangle: Rectangle,
    partition_column_names: &Vec<String>,
    n_splits: u32,
) -> (r: Result<Vec<Vec<ManifestEntry>>, Error>)
    ensures
        r matches Ok(groups) ==> {
            &&& groups@.len() == vstd::arithmetic::power2::pow2(n_splits as nat)
            &&& groups_multiset(groups@) == entries@.to_multiset()
            &&& paths_of_groups(groups@) == paths_of_entries(entries@)
            &&& balanced_inputs(entries@, partition_column_names@) ==> (forall|i: int|
                0 <= i < groups@.len() ==> (#[trigger] groups@[i])@.len() <= halved_up(
                    entries@.len() as int,
                    n_splits as nat,
                ))
            &&& n_splits == 0 ==> groups@.len() == 1 && groups@[0]@ == entries@
        },
        n_splits == 0 ==> r is Ok,
    decreases n_splits,
{
    broadcast use vstd::seq_lib::group_to_multiset_ensures;

    if n_splits == 0 {
        let ghost input = entries@;
        let mut groups: Vec<Vec<ManifestEntry>> = Vec::new();
        groups.push(entries);
        proof {
            broadcast use vstd::multiset::group_multiset_axioms;

            vstd::arithmetic::power2::lemma2_to64();
            assert(groups@.len() == 1);
            assert(groups@[0]@ == input);
            assert(groups@.skip(1) =~= Seq::<Vec<ManifestEntry>>::empty());
            assert(groups_multiset(groups@.skip(1)) =~= vstd::multiset::Multiset::empty());
            assert(groups_multiset(groups@) == groups@[0]@.to_multiset().add(
                groups_multiset(groups@.skip(1)),
            ));
            assert(groups_multiset(groups@) =~= input.to_multiset());
            assert(paths_of_groups(groups@.skip(1)) =~= vstd::multiset::Multiset::empty());
            assert(paths_of_groups(groups@) == paths_of_entries(groups@[0]@).add(
                paths_of_groups(groups@.skip(1)),
            ));
            assert(paths_of_groups(groups@) =~= paths_of_entries(input));
        }
        return Ok(groups);
    }
    let ghost input = entries@;
    let (low, high, low_rect, high_rect) = match split_once(entries, &rectangle, partition_column_names) {
        Ok(four) => four,
        Err(e) => {
            return Err(e);
        },
    };
    let ghost glow = low@;
    let ghost ghigh = high@;
    proof {
        let (d, pivot) = choose|d: int, pivot: Value|
            #![auto]
            0 <= d < partition_column_names@.len() && low@ == low_part(
                input,
                partition_column_names@[d]@,
                pivot,
            ) && high@ == high_part(input, partition_column_names@[d]@, pivot);
        lemma_split_conserves(input, partition_column_names@[d]@, pivot);
        if balanced_inputs(input, partition_column_names@) {
            assert forall|j: int| 0 <= j < partition_column_names@.len() implies all_present(
                glow,
                (#[trigger] partition_column_names@[j])@,
            ) && distinct_comparable(values_along(glow, partition_column_names@[j]@))
                && all_present(ghigh, partition_column_names@[j]@) && distinct_comparable(
                values_along(ghigh, partition_column_names@[j]@),
            ) by {
                lemma_part_preserves(
                    input,
                    partition_column_names@[d]@,
                    pivot,
                    partition_column_names@[j]@,
                );
            }
            assert(balanced_inputs(glow, partition_column_names@));
            assert(balanced_inputs(ghigh, partition_column_names@));
        }
    }
    let mut groups = match split_datafiles(low, low_rect, partition_column_names, n_splits - 1) {
        Ok(g) => g,
        Err(e) => {
            return Err(e);
        },
    };
    let ghost low_groups = groups@;
    let more = match split_datafiles(high, high_rect, partition_column_names, n_splits - 1) {
        Ok(g) => g,
        Err(e) => {
            return Err(e);
        },
    };
    let ghost high_groups = more@;
    let mut more = more;
    groups.append(&mut more);
    proof {
        lemma_groups_multiset_concat(low_groups, high_groups);
        assert(groups@ =~= low_groups + high_groups);
        vstd::arithmetic::power2::lemma_pow2_unfold(n_splits as nat);
        if balanced_inputs(input, partition_column_names@) {
            let t = input.len() as int;
            assert forall|i: int| 0 <= i < groups@.len() implies (#[trigger] groups@[i])@.len()
                <= halved_up(t, n_splits as nat) by {
                lemma_halved_up_monotone(glow.len() as int, (t + 1) / 2, (n_splits - 1) as nat);
                lemma_halved_up_monotone(ghigh.len() as int, (t + 1) / 2, (n_splits - 1) as nat);
                if i < low_groups.len() {
                    assert(groups@[i] == low_groups[i]);
                    assert(low_groups[i]@.len() <= halved_up(
                        glow.len() as int,
                        (n_splits - 1) as nat,
                    ));
                } else {
                    assert(groups@[i] == high_groups[i - low_groups.len()]);
                    assert(high_groups[i - low_groups.len()]@.len() <= halved_up(
                        ghigh.len() as int,
                        (n_splits - 1) as nat,
                    ));
                }
            }
        }
    }
    Ok(groups)
}

/// All entries of a list of groups, as one multiset.
pub open spec fn groups_multiset(gs: Seq<Vec<ManifestEntry>>) -> vstd::multiset::Multiset<
    ManifestEntry,
>
    decreases gs.len(),
{
    if gs.len() == 0 {
        vstd::multiset::Multiset::empty()
    } else {
        gs[0]@.to_multiset().add(groups_multiset(gs.skip(1)))
    }
}

/// All data-file locations of a list of groups, as one multiset.
pub open spec fn paths_of_groups(gs: Seq<Vec<ManifestEntry>>) -> vstd::multiset::Multiset<
    Seq<char>,
>
    decreases gs.len(),
{
    if gs.len() == 0 {
        vstd::multiset::Multiset::empty()
    } else {
        paths_of_entries(gs[0]@).add(paths_of_groups(gs.skip(1)))
    }
}

/// Every entry of every group is counted by the groups' multiset.
pub proof fn lemma_groups_member(gs: Seq<Vec<ManifestEntry>>, i: int, j: int)
    requires
        0 <= i < gs.len(),
        0 <= j < gs[i]@.len(),
    ensures
        groups_multiset(gs).count(gs[i]@[j]) > 0,
    decreases i,
{
    broadcast use vstd::multiset::group_multiset_axioms;
    broadcast use vstd::seq_lib::group_to_multiset_ensures;

    if i == 0 {
        assert(gs[0]@.contains(gs[0]@[j]));
    } else {
        assert(gs.skip(1)[i - 1] == gs[i]);
        lemma_groups_member(gs.skip(1), i - 1, j);
    }
}

/// Concatenating group lists adds their multisets.
proof fn lemma_groups_multiset_concat(a: Seq<Vec<ManifestEntry>>, b: Seq<Vec<ManifestEntry>>)
    ensures
        groups_multiset(a + b) == groups_multiset(a).add(groups_multiset(b)),
        paths_of_groups(a + b) == paths_of_groups(a).add(paths_of_groups(b)),
    decreases a.len(),
{
    broadcast use vstd::multiset::group_multiset_axioms;

    if a.len() == 0 {
        assert(a + b =~= b);
        assert(groups_multiset(a + b) =~= groups_multiset(a).add(groups_multiset(b)));
        assert(paths_of_groups(a + b) =~= paths_of_groups(a).add(paths_of_groups(b)));
    } else {
        assert((a + b)[0] == a[0]);
        assert((a + b).skip(1) =~= a.skip(1) + b);
        lemma_groups_multiset_concat(a.skip(1), b);
        assert(groups_multiset(a + b) =~= groups_multiset(a).add(groups_multiset(b)));
        assert(paths_of_groups(a + b) =~= paths_of_groups(a).add(paths_of_groups(b)));
    }
}

/// Appending a header adds its count to the total.
proof fn lemma_sum_push(s: Seq<ManifestListEntry>, e: ManifestListEntry)
    ensures
        sum_added_files(s.push(e)) == sum_added_files(s) + files_of(e),
    decreases s.len(),
{
    if s.len() == 0 {
        assert(s.push(e)[0] == e);
        assert(s.push(e).skip(1) =~= Seq::<ManifestListEntry>::empty());
        assert(sum_added_files(s.push(e)) == files_of(e) + sum_added_files(s.push(e).skip(1)));
        assert(sum_added_files(s.push(e).skip(1)) == 0);
    } else {
        assert(s.push(e)[0] == s[0]);
        assert(s.push(e).skip(1) =~= s.skip(1).push(e));
        lemma_sum_push(s.skip(1), e);
        assert(sum_added_files(s.push(e)) == files_of(s[0]) + sum_added_files(s.push(e).skip(1)));
        assert(sum_added_files(s.push(e).skip(1)) == sum_added_files(s.skip(1).push(e)));
    }
}

} // verus!
