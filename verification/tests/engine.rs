//! The append and rewrite engine, end to end on in-memory metadata.

use iceberg_core::commit::{apply_table_updates, check_table_requirement, TableRequirement, TableUpdate};
use iceberg_core::error::Error;
use iceberg_core::manifest::{Content, DataFile, ManifestEntry, Status};
use iceberg_core::manifest_list::{FieldSummary, ManifestListContent, ManifestListEntry};
use iceberg_core::operation::{ExecuteOutcome, Operation, OperationPlan};
use iceberg_core::partition::{PartitionField, PartitionSpec, Transform};
use iceberg_core::schema::{PrimitiveType, Schema, SchemaField};
use iceberg_core::snapshot::{Operation as SummaryOperation, Snapshot, SnapshotReference, Summary};
use iceberg_core::table_metadata::{FormatVersion, TableMetadata};
use iceberg_core::values::{Struct, StructField, Value};

fn region_schema() -> Schema {
    Schema {
        schema_id: 0,
        fields: vec![SchemaField {
            id: 1,
            name: "region".to_owned(),
            required: false,
            field_type: PrimitiveType::Str,
        }],
    }
}

fn partition_spec(partitioned: bool) -> PartitionSpec {
    let fields = if partitioned {
        vec![PartitionField {
            source_id: 1,
            field_id: 1000,
            name: "region".to_owned(),
            transform: Transform::Identity,
        }]
    } else {
        vec![]
    };
    PartitionSpec { spec_id: 0, fields }
}

fn empty_metadata(partitioned: bool) -> TableMetadata {
    TableMetadata {
        format_version: FormatVersion::V2,
        location: "s3://bucket/table".to_owned(),
        last_sequence_number: 0,
        schemas: vec![region_schema()],
        current_schema_id: 0,
        partition_specs: vec![partition_spec(partitioned)],
        default_spec_id: 0,
        properties: vec![],
        current_snapshot_id: None,
        snapshots: vec![],
        refs: vec![],
    }
}

fn snapshot(id: i64, sequence: i64, list: &str) -> Snapshot {
    Snapshot {
        snapshot_id: id,
        sequence_number: sequence,
        manifest_list: list.to_owned(),
        schema_id: Some(0),
        summary: Summary { operation: SummaryOperation::Append, other: vec![] },
    }
}

fn metadata_with_snapshot(partitioned: bool, id: i64) -> TableMetadata {
    let mut md = empty_metadata(partitioned);
    md.snapshots = vec![snapshot(id, 0, "s3://bucket/table/metadata/snap-old.avro")];
    md.refs = vec![(
        "main".to_owned(),
        SnapshotReference {
            snapshot_id: id,
            retention: iceberg_core::snapshot::SnapshotRetention::default(),
        },
    )];
    md.current_snapshot_id = Some(id);
    md
}

fn data_file(path: &str, records: i64, region: Option<&str>) -> DataFile {
    let fields = match region {
        Some(r) => vec![StructField {
            name: "region".to_owned(),
            value: Some(Value::Str(r.to_owned())),
        }],
        None => vec![],
    };
    DataFile {
        content: Content::Data,
        file_path: path.to_owned(),
        partition: Struct { fields },
        record_count: records,
        file_size_in_bytes: 0,
    }
}

fn manifest_header(
    path: &str,
    files: Option<i32>,
    rows: Option<i64>,
    bounds: Option<(&str, &str)>,
) -> ManifestListEntry {
    ManifestListEntry {
        manifest_path: path.to_owned(),
        manifest_length: 10,
        partition_spec_id: 0,
        content: ManifestListContent::Data,
        sequence_number: 0,
        min_sequence_number: 0,
        added_snapshot_id: 1,
        added_files_count: files,
        existing_files_count: Some(0),
        deleted_files_count: Some(0),
        added_rows_count: rows,
        existing_rows_count: Some(0),
        deleted_rows_count: Some(0),
        partitions: bounds.map(|(lo, hi)| {
            vec![FieldSummary {
                contains_null: false,
                contains_nan: None,
                lower_bound: Some(Value::Str(lo.to_owned())),
                upper_bound: Some(Value::Str(hi.to_owned())),
            }]
        }),
    }
}

fn existing_entry(path: &str, records: i64, region: &str) -> ManifestEntry {
    ManifestEntry {
        status: Status::Added,
        snapshot_id: Some(1),
        sequence_number: Some(0),
        data_file: data_file(path, records, Some(region)),
    }
}

fn done(outcome: ExecuteOutcome) -> OperationPlan {
    match outcome {
        ExecuteOutcome::Done(plan) => plan,
        ExecuteOutcome::NeedsManifest(_) => panic!("expected a finished plan"),
    }
}

#[test]
fn fresh_append_on_empty_unpartitioned_table() {
    let mut md = empty_metadata(false);
    let op = Operation::Append {
        branch: None,
        files: vec![data_file("a", 10, None), data_file("b", 20, None)],
        additional_summary: None,
    };
    let plan = done(op.execute(&md, None).unwrap());
    assert_eq!(plan.snapshot_sequence, 0);
    assert!(plan.requirement.is_none());
    assert_eq!(plan.new_manifests.len(), 1);
    let manifest = &plan.new_manifests[0];
    assert_eq!(manifest.header.added_files_count, Some(2));
    assert_eq!(manifest.header.added_rows_count, Some(30));
    assert_eq!(manifest.entries.len(), 2);
    for e in &manifest.entries {
        assert!(matches!(e.status, Status::Added));
        assert_eq!(e.snapshot_id, Some(plan.snapshot_id));
        assert_eq!(e.sequence_number, Some(1));
    }
    // the manifest list is placed under the metadata directory, named
    // after the snapshot id and a fresh 36-character identifier
    let list_path = plan.manifest_list_path.as_ref().unwrap();
    let prefix = format!("s3://bucket/table/metadata/snap-{}", plan.snapshot_id);
    assert!(list_path.starts_with(&prefix));
    assert!(list_path.ends_with(".avro"));
    assert_eq!(list_path.len(), prefix.len() + 36 + ".avro".len());
    apply_table_updates(&mut md, plan.updates);
    assert_eq!(md.current_snapshot_id, Some(plan.snapshot_id));
    let main_ref = md.ref_by_name(&"main".to_owned()).unwrap();
    assert_eq!(main_ref.snapshot_id, plan.snapshot_id);
    let committed = md.snapshot_by_id(plan.snapshot_id).unwrap();
    assert_eq!(committed.sequence_number, 0);
    assert!(md.last_sequence_number >= committed.sequence_number);
}

#[test]
fn append_extends_the_elected_manifest() {
    let md = metadata_with_snapshot(true, 1);
    let m0 = manifest_header(
        "s3://bucket/table/metadata/m0.avro",
        Some(2),
        Some(100),
        Some(("EU", "EU")),
    );
    let op = Operation::Append {
        branch: None,
        files: vec![
            data_file("new-1", 10, Some("EU")),
            data_file("new-2", 20, Some("EU")),
        ],
        additional_summary: None,
    };
    let pending = match op.execute(&md, Some(vec![m0])).unwrap() {
        ExecuteOutcome::NeedsManifest(p) => p,
        ExecuteOutcome::Done(_) => panic!("expected a pause for the elected manifest"),
    };
    assert_eq!(pending.selected.manifest_path, "s3://bucket/table/metadata/m0.avro");
    assert_eq!(pending.n_splits, 0);
    let plan = pending
        .resume(vec![
            existing_entry("old-1", 50, "EU"),
            existing_entry("old-2", 50, "EU"),
        ])
        .unwrap();
    assert_eq!(plan.new_manifests.len(), 1);
    assert_eq!(plan.carried.len(), 0);
    let manifest = &plan.new_manifests[0];
    // the elected manifest is rewritten in place, extended by the batch
    assert_eq!(manifest.header.manifest_path, "s3://bucket/table/metadata/m0.avro");
    assert_eq!(manifest.header.added_files_count, Some(2 + 2));
    assert_eq!(manifest.header.added_rows_count, Some(100 + 30));
    assert_eq!(manifest.entries.len(), 4);
    let sums = manifest.header.partitions.as_ref().unwrap();
    match (&sums[0].lower_bound, &sums[0].upper_bound) {
        (Some(Value::Str(lo)), Some(Value::Str(hi))) => {
            assert_eq!(lo, "EU");
            assert_eq!(hi, "EU");
        }
        _ => panic!("missing summary bounds"),
    }
    match &plan.requirement {
        Some(TableRequirement::AssertRefSnapshotId { ref_name, snapshot_id }) => {
            assert_eq!(ref_name, "main");
            assert_eq!(*snapshot_id, 1);
        }
        None => panic!("missing requirement"),
    }
}

#[test]
fn disjoint_extension_widens_the_summary() {
    let md = metadata_with_snapshot(true, 1);
    let m0 = manifest_header(
        "s3://bucket/table/metadata/m0.avro",
        Some(2),
        Some(100),
        Some(("EU", "EU")),
    );
    let op = Operation::Append {
        branch: None,
        files: vec![data_file("new-1", 5, Some("US"))],
        additional_summary: None,
    };
    let pending = match op.execute(&md, Some(vec![m0])).unwrap() {
        ExecuteOutcome::NeedsManifest(p) => p,
        ExecuteOutcome::Done(_) => panic!("expected a pause for the elected manifest"),
    };
    // the single candidate is still elected
    assert_eq!(pending.selected.manifest_path, "s3://bucket/table/metadata/m0.avro");
    let plan = pending
        .resume(vec![
            existing_entry("old-1", 50, "EU"),
            existing_entry("old-2", 50, "EU"),
        ])
        .unwrap();
    let manifest = &plan.new_manifests[0];
    let sums = manifest.header.partitions.as_ref().unwrap();
    match (&sums[0].lower_bound, &sums[0].upper_bound) {
        (Some(Value::Str(lo)), Some(Value::Str(hi))) => {
            assert_eq!(lo, "EU");
            assert_eq!(hi, "US");
        }
        _ => panic!("missing summary bounds"),
    }
}

#[test]
fn split_is_triggered_by_the_sizing_heuristic() {
    let md = metadata_with_snapshot(true, 1);
    let m0 = manifest_header(
        "s3://bucket/table/metadata/m0.avro",
        Some(60),
        Some(600),
        Some(("r00", "r59")),
    );
    let mut files = Vec::new();
    for i in 0..100u32 {
        let region = format!("s{:02}", i);
        files.push(data_file(&format!("new-{}", i), 1, Some(&region)));
    }
    let op = Operation::Append { branch: None, files, additional_summary: None };
    let pending = match op.execute(&md, Some(vec![m0])).unwrap() {
        ExecuteOutcome::NeedsManifest(p) => p,
        ExecuteOutcome::Done(_) => panic!("expected a pause for the elected manifest"),
    };
    // limit = 4 + floor(sqrt(60 + 100)) = 16; 160 / 16 = 10; floor(log2(10)) + 1 = 4
    assert_eq!(pending.n_splits, 4);
    let mut existing = Vec::new();
    for i in 0..60u32 {
        let region = format!("r{:02}", i);
        existing.push(existing_entry(&format!("old-{}", i), 10, &region));
    }
    let plan = pending.resume(existing).unwrap();
    assert_eq!(plan.new_manifests.len(), 16);
    let total: usize = plan.new_manifests.iter().map(|p| p.entries.len()).sum();
    assert_eq!(total, 160);
}

#[test]
fn conflicting_append_requirement_is_rejected_after_the_first_commit() {
    let md = metadata_with_snapshot(false, 7);
    let m0 = manifest_header("s3://bucket/table/metadata/m0.avro", Some(1), Some(10), None);
    let run = |path: &str| {
        let op = Operation::Append {
            branch: None,
            files: vec![data_file(path, 1, None)],
            additional_summary: None,
        };
        let pending = match op.execute(&md, Some(vec![m0.clone()])).unwrap() {
            ExecuteOutcome::NeedsManifest(p) => p,
            ExecuteOutcome::Done(_) => panic!("expected a pause for the elected manifest"),
        };
        pending.resume(vec![existing_entry("old", 10, "EU")]).unwrap()
    };
    let plan_a = run("a");
    let plan_b = run("b");
    let req_b = plan_b.requirement.unwrap();
    match &req_b {
        TableRequirement::AssertRefSnapshotId { ref_name, snapshot_id } => {
            assert_eq!(ref_name, "main");
            assert_eq!(*snapshot_id, 7);
        }
    }
    // before any commit, the optimistic requirement holds
    assert!(check_table_requirement(&md, &req_b));
    // after A commits, B's requirement is surfaced as violated
    let mut committed = md;
    apply_table_updates(&mut committed, plan_a.updates);
    assert!(!check_table_requirement(&committed, &req_b));
}

#[test]
fn rewrite_collapses_the_lineage() {
    let mut md = metadata_with_snapshot(false, 3);
    md.snapshots = vec![
        snapshot(1, 0, "s3://bucket/table/metadata/snap-0.avro"),
        snapshot(2, 1, "s3://bucket/table/metadata/snap-1.avro"),
        snapshot(3, 2, "s3://bucket/table/metadata/snap-2.avro"),
    ];
    md.last_sequence_number = 2;
    let op = Operation::Rewrite {
        branch: None,
        files: vec![data_file("f", 5, None)],
        additional_summary: None,
    };
    let plan = done(op.execute(&md, None).unwrap());
    match &plan.updates[0] {
        TableUpdate::RemoveSnapshots { snapshot_ids } => {
            assert_eq!(snapshot_ids, &vec![1i64, 2, 3]);
        }
        _ => panic!("expected the removal first"),
    }
    match &plan.requirement {
        Some(TableRequirement::AssertRefSnapshotId { ref_name, snapshot_id }) => {
            assert_eq!(ref_name, "main");
            assert_eq!(*snapshot_id, 3);
        }
        None => panic!("missing requirement"),
    }
    apply_table_updates(&mut md, plan.updates);
    assert_eq!(md.snapshots.len(), 1);
    assert_eq!(md.snapshots[0].snapshot_id, plan.snapshot_id);
    let main_ref = md.ref_by_name(&"main".to_owned()).unwrap();
    assert_eq!(main_ref.snapshot_id, plan.snapshot_id);
}

#[test]
fn rewrite_covers_exactly_the_given_files() {
    let files = || {
        vec![
            data_file("x", 1, Some("EU")),
            data_file("y", 2, Some("US")),
            data_file("z", 3, Some("AT")),
        ]
    };
    let run = |md: &TableMetadata| {
        let op = Operation::Rewrite { branch: None, files: files(), additional_summary: None };
        let plan = done(op.execute(md, None).unwrap());
        let mut paths: Vec<String> = plan
            .new_manifests
            .iter()
            .flat_map(|m| m.entries.iter().map(|e| e.data_file.file_path.clone()))
            .collect();
        paths.sort();
        paths
    };
    let md1 = empty_metadata(true);
    let md2 = metadata_with_snapshot(true, 1);
    let first = run(&md1);
    let second = run(&md2);
    assert_eq!(first, vec!["x".to_owned(), "y".to_owned(), "z".to_owned()]);
    assert_eq!(first, second);
}

#[test]
fn append_of_nothing_is_refused() {
    let md = empty_metadata(false);
    let op = Operation::Append { branch: None, files: vec![], additional_summary: None };
    assert!(matches!(op.execute(&md, None), Err(Error::NotFound(_, _))));
    // and it reads nothing first, even where a snapshot exists
    let with_snapshot = metadata_with_snapshot(false, 1);
    let empty_op = Operation::Append { branch: None, files: vec![], additional_summary: None };
    assert!(matches!(empty_op.manifest_list_to_read(&with_snapshot), Ok(None)));
    assert!(matches!(
        empty_op.execute(&with_snapshot, None),
        Err(Error::NotFound(_, _))
    ));
}

#[test]
fn append_against_an_empty_manifest_list_is_refused() {
    let md = metadata_with_snapshot(false, 1);
    let op = Operation::Append {
        branch: None,
        files: vec![data_file("a", 1, None)],
        additional_summary: None,
    };
    assert!(matches!(
        op.execute(&md, Some(vec![])),
        Err(Error::NotFound(_, _))
    ));
}

#[test]
fn snapshot_ids_are_non_negative() {
    for _ in 0..8 {
        assert!(iceberg_core::snapshot::generate_snapshot_id() >= 0);
    }
}

#[test]
fn metadata_only_operations_produce_single_updates() {
    let md = empty_metadata(false);
    let plan = done(
        Operation::UpdateProperties(vec![("owner".to_owned(), "me".to_owned())])
            .execute(&md, None)
            .unwrap(),
    );
    assert!(plan.requirement.is_none());
    assert_eq!(plan.updates.len(), 1);
    match &plan.updates[0] {
        TableUpdate::SetProperties { updates } => assert_eq!(updates.len(), 1),
        _ => panic!("expected a property update"),
    }
    let plan = done(Operation::SetDefaultSpec(5).execute(&md, None).unwrap());
    assert!(matches!(plan.updates[0], TableUpdate::SetDefaultSpec { spec_id: 5 }));
}
