//! The commit model, the table-facing API and the scan helpers.

use iceberg_core::commit::{
    apply_table_update, apply_table_updates, check_table_requirements, CommitTable,
    TableRequirement, TableUpdate,
};
use iceberg_core::error::Error;
use iceberg_core::identifier::Identifier;
use iceberg_core::manifest::{Content, DataFile, ManifestEntry, ManifestWriter, Status};
use iceberg_core::manifest_list::{
    manifest_list_entry_from_v1, summary_to_rectangle, FieldSummary, ManifestListContent,
    ManifestListEntry, ManifestListReader,
};
use iceberg_core::models::{
    CommitTableResponse, CommitTransactionRequest, LoadTableResult, StorageCredential,
    UpdateNamespacePropertiesRequest,
};
use iceberg_core::append::select_manifest;
use iceberg_core::rectangle::Rectangle;
use iceberg_core::scan::{any_delete, filter_manifests_by_sequence, inherit_and_filter_entries};
use iceberg_core::schema::{PrimitiveType, Schema, SchemaField};
use iceberg_core::snapshot::{Operation as SummaryOperation, Snapshot, SnapshotReference, Summary};
use iceberg_core::table::{Table, CreateTableBuilder, WRITE_PARQUET_COMPRESSION_CODEC};
use iceberg_core::table_metadata::{FormatVersion, TableMetadata};
use iceberg_core::tabular::{MaterializedView, MaterializedViewMetadata, Tabular, TabularMetadata, View, ViewMetadata};
use iceberg_core::values::{Struct, Value};

fn base_metadata() -> TableMetadata {
    TableMetadata {
        format_version: FormatVersion::V2,
        location: "s3://bucket/table".to_owned(),
        last_sequence_number: 0,
        schemas: vec![Schema { schema_id: 0, fields: vec![] }],
        current_schema_id: 0,
        partition_specs: vec![iceberg_core::partition::PartitionSpec { spec_id: 0, fields: vec![] }],
        default_spec_id: 0,
        properties: vec![],
        current_snapshot_id: None,
        snapshots: vec![],
        refs: vec![],
    }
}

fn plain_entry(path: &str, records: i64, sequence: Option<i64>, content: Content) -> ManifestEntry {
    ManifestEntry {
        status: Status::Added,
        snapshot_id: Some(1),
        sequence_number: sequence,
        data_file: DataFile {
            content,
            file_path: path.to_owned(),
            partition: Struct { fields: vec![] },
            record_count: records,
            file_size_in_bytes: 0,
        },
    }
}

fn header(path: &str, files: Option<i32>, rows: Option<i64>, sequence: i64) -> ManifestListEntry {
    ManifestListEntry {
        manifest_path: path.to_owned(),
        manifest_length: 1,
        partition_spec_id: 0,
        content: ManifestListContent::Data,
        sequence_number: sequence,
        min_sequence_number: 0,
        added_snapshot_id: 1,
        added_files_count: files,
        existing_files_count: Some(0),
        deleted_files_count: Some(0),
        added_rows_count: rows,
        existing_rows_count: Some(0),
        deleted_rows_count: Some(0),
        partitions: None,
    }
}

#[test]
fn setting_a_property_overwrites_by_name() {
    let mut md = base_metadata();
    md.properties = vec![("owner".to_owned(), "old".to_owned())];
    apply_table_update(
        &mut md,
        TableUpdate::SetProperties {
            updates: vec![
                ("owner".to_owned(), "new".to_owned()),
                ("tier".to_owned(), "gold".to_owned()),
            ],
        },
    );
    assert_eq!(md.properties.len(), 2);
    assert_eq!(md.properties[0].0, "owner");
    assert_eq!(md.properties[0].1, "new");
    assert_eq!(md.properties[1].0, "tier");
    assert_eq!(md.properties[1].1, "gold");
}

#[test]
fn adding_a_snapshot_advances_the_last_sequence_number() {
    let mut md = base_metadata();
    let snap = Snapshot {
        snapshot_id: 9,
        sequence_number: 4,
        manifest_list: "l".to_owned(),
        schema_id: Some(0),
        summary: Summary { operation: SummaryOperation::Append, other: vec![] },
    };
    apply_table_update(&mut md, TableUpdate::AddSnapshot { snapshot: snap });
    assert_eq!(md.last_sequence_number, 4);
    assert_eq!(md.snapshots.len(), 1);
}

#[test]
fn requirements_hold_exactly_when_the_reference_matches() {
    let mut md = base_metadata();
    md.snapshots = vec![Snapshot {
        snapshot_id: 2,
        sequence_number: 0,
        manifest_list: "l".to_owned(),
        schema_id: Some(0),
        summary: Summary { operation: SummaryOperation::Append, other: vec![] },
    }];
    md.refs = vec![(
        "main".to_owned(),
        SnapshotReference {
            snapshot_id: 2,
            retention: iceberg_core::snapshot::SnapshotRetention::default(),
        },
    )];
    let good = TableRequirement::AssertRefSnapshotId {
        ref_name: "main".to_owned(),
        snapshot_id: 2,
    };
    let stale = TableRequirement::AssertRefSnapshotId {
        ref_name: "main".to_owned(),
        snapshot_id: 1,
    };
    let unknown = TableRequirement::AssertRefSnapshotId {
        ref_name: "dev".to_owned(),
        snapshot_id: 2,
    };
    assert!(check_table_requirements(&md, &vec![good]));
    assert!(!check_table_requirements(&md, &vec![stale]));
    assert!(!check_table_requirements(&md, &vec![unknown]));
}

#[test]
fn set_snapshot_ref_on_main_moves_the_current_snapshot() {
    let mut md = base_metadata();
    apply_table_updates(
        &mut md,
        vec![TableUpdate::SetSnapshotRef {
            ref_name: "main".to_owned(),
            snapshot_reference: SnapshotReference {
                snapshot_id: 11,
                retention: iceberg_core::snapshot::SnapshotRetention::default(),
            },
        }],
    );
    assert_eq!(md.current_snapshot_id, Some(11));
    assert_eq!(md.ref_by_name(&"main".to_owned()).unwrap().snapshot_id, 11);
}

#[test]
fn unpartitioned_selector_elects_the_smallest_row_count() {
    let entries = vec![
        header("m-a", Some(1), Some(10), 0),
        header("m-b", Some(2), Some(5), 0),
        header("m-c", Some(3), None, 0),
    ];
    let reader = ManifestListReader::new(entries);
    let mut file_count: u64 = 0;
    let mut out: Vec<ManifestListEntry> = Vec::new();
    let bounds = Rectangle::degenerate(vec![]);
    let names: Vec<String> = vec![];
    let selected = select_manifest(&names, reader, &mut file_count, &mut out, &bounds).unwrap();
    assert_eq!(selected.manifest_path, "m-b");
    assert_eq!(out.len(), 2);
    assert_eq!(file_count, 6);
    for other in &out {
        let selected_rows = selected.added_rows_count.unwrap();
        match other.added_rows_count {
            Some(r) => assert!(selected_rows <= r),
            None => {}
        }
    }
}

#[test]
fn manifest_writer_counts_and_bounds_follow_the_entries() {
    let mut writer = ManifestWriter::new(
        "m".to_owned(),
        5,
        0,
        1,
        0,
        vec!["region".to_owned()],
    );
    let entry = |path: &str, records: i64, region: &str| ManifestEntry {
        status: Status::Added,
        snapshot_id: Some(5),
        sequence_number: Some(1),
        data_file: DataFile {
            content: Content::Data,
            file_path: path.to_owned(),
            partition: Struct {
                fields: vec![iceberg_core::values::StructField {
                    name: "region".to_owned(),
                    value: Some(Value::Str(region.to_owned())),
                }],
            },
            record_count: records,
            file_size_in_bytes: 0,
        },
    };
    writer.append(entry("a", 3, "EU")).unwrap();
    writer.append(entry("b", 4, "AT")).unwrap();
    writer.append(entry("c", 5, "US")).unwrap();
    let (header, entries) = writer.finish();
    assert_eq!(entries.len(), 3);
    assert_eq!(header.added_files_count, Some(3));
    assert_eq!(header.added_rows_count, Some(12));
    let sums = header.partitions.as_ref().unwrap();
    match (&sums[0].lower_bound, &sums[0].upper_bound) {
        (Some(Value::Str(lo)), Some(Value::Str(hi))) => {
            assert_eq!(lo, "AT");
            assert_eq!(hi, "US");
        }
        _ => panic!("missing summary bounds"),
    }
    assert!(!sums[0].contains_null);
}

#[test]
fn manifest_writer_flags_null_partition_values() {
    let mut writer = ManifestWriter::new("m".to_owned(), 5, 0, 1, 0, vec!["region".to_owned()]);
    writer
        .append(ManifestEntry {
            status: Status::Added,
            snapshot_id: Some(5),
            sequence_number: Some(1),
            data_file: DataFile {
                content: Content::Data,
                file_path: "a".to_owned(),
                partition: Struct { fields: vec![] },
                record_count: 1,
                file_size_in_bytes: 0,
            },
        })
        .unwrap();
    let (header, _) = writer.finish();
    let sums = header.partitions.as_ref().unwrap();
    assert!(sums[0].contains_null);
}

#[test]
fn manifest_writer_overflow_is_a_conversion_failure() {
    let seeded = header("m", Some(i32::MAX), Some(0), 0);
    let mut writer =
        ManifestWriter::from_existing(seeded, vec![], vec![], 5, 1).unwrap();
    let r = writer.append(plain_entry("a", 1, Some(1), Content::Data));
    assert!(matches!(r, Err(Error::Conversion(_, _))));
}

#[test]
fn summary_without_bounds_gives_no_rectangle() {
    let sums = vec![FieldSummary {
        contains_null: true,
        contains_nan: None,
        lower_bound: None,
        upper_bound: None,
    }];
    assert!(matches!(summary_to_rectangle(&sums), Err(Error::NotFound(_, _))));
}

#[test]
fn v1_list_entries_lift_into_the_v2_superset() {
    let e = manifest_list_entry_from_v1(
        "m".to_owned(),
        9,
        0,
        1,
        Some(1),
        None,
        None,
        Some(2),
        None,
        None,
        None,
    );
    assert!(matches!(e.content, ManifestListContent::Data));
    assert_eq!(e.sequence_number, 0);
    assert_eq!(e.min_sequence_number, 0);
    assert_eq!(e.manifest_length, 9);
}

#[test]
fn schema_lookup_failure_is_a_schema_error() {
    let spec = iceberg_core::partition::PartitionSpec {
        spec_id: 0,
        fields: vec![iceberg_core::partition::PartitionField {
            source_id: 42,
            field_id: 1000,
            name: "region".to_owned(),
            transform: iceberg_core::partition::Transform::Identity,
        }],
    };
    let schema = Schema { schema_id: 0, fields: vec![] };
    let r = iceberg_core::partition::partition_value_fields(&spec, &schema);
    assert!(matches!(r, Err(Error::Schema(_, _))));
}

#[test]
fn partition_value_layout_takes_the_source_column_type() {
    let spec = iceberg_core::partition::PartitionSpec {
        spec_id: 0,
        fields: vec![iceberg_core::partition::PartitionField {
            source_id: 1,
            field_id: 1000,
            name: "region".to_owned(),
            transform: iceberg_core::partition::Transform::Identity,
        }],
    };
    let schema = Schema {
        schema_id: 0,
        fields: vec![SchemaField {
            id: 1,
            name: "region".to_owned(),
            required: false,
            field_type: PrimitiveType::Str,
        }],
    };
    let layout = iceberg_core::partition::partition_value_fields(&spec, &schema).unwrap();
    assert_eq!(layout.len(), 1);
    assert_eq!(layout[0].field_id, 1000);
    assert_eq!(layout[0].name, "region");
    assert!(matches!(layout[0].field_type, PrimitiveType::Str));
}

#[test]
fn scan_filters_manifests_by_sequence_floor() {
    let manifests = vec![header("m1", None, None, 1), header("m2", None, None, 2), header("m3", None, None, 3)];
    let kept = filter_manifests_by_sequence(manifests, Some(1));
    assert_eq!(kept.len(), 2);
    assert_eq!(kept[0].manifest_path, "m2");
    assert_eq!(kept[1].manifest_path, "m3");
}

#[test]
fn scan_inherits_and_filters_entry_sequences() {
    let entries = vec![
        plain_entry("a", 1, None, Content::Data),
        plain_entry("b", 1, Some(5), Content::Data),
        plain_entry("c", 1, Some(1), Content::Data),
    ];
    let kept = inherit_and_filter_entries(entries, 3, (Some(2), Some(5)));
    assert_eq!(kept.len(), 2);
    assert_eq!(kept[0].data_file.file_path, "a");
    assert_eq!(kept[0].sequence_number, Some(3));
    assert_eq!(kept[1].data_file.file_path, "b");
}

#[test]
fn scan_detects_delete_entries() {
    let with_delete = vec![
        plain_entry("a", 1, Some(1), Content::Data),
        plain_entry("b", 1, Some(1), Content::PositionDeletes),
    ];
    let plain = vec![plain_entry("a", 1, Some(1), Content::Data)];
    assert!(any_delete(&with_delete));
    assert!(!any_delete(&plain));
}

#[test]
fn reload_of_a_different_kind_is_refused() {
    let table = Tabular::Table(Table::new(
        Identifier::new(vec!["ns".to_owned()], "t".to_owned()),
        base_metadata(),
    ));
    let view = Tabular::View(View {
        identifier: Identifier::new(vec!["ns".to_owned()], "v".to_owned()),
        metadata: ViewMetadata { location: "l".to_owned(), current_version_id: 1 },
    });
    assert!(matches!(table.accept_reload(view), Err(Error::InvalidFormat(_))));
    let again = Tabular::Table(Table::new(
        Identifier::new(vec!["ns".to_owned()], "t".to_owned()),
        base_metadata(),
    ));
    assert!(table.accept_reload(again).is_ok());
}

#[test]
fn tabular_metadata_reports_location_and_progress() {
    let t = TabularMetadata::Table(base_metadata());
    assert_eq!(t.location(), "s3://bucket/table");
    assert_eq!(t.sequence_number(), 0);
    let v = TabularMetadata::View(ViewMetadata { location: "vl".to_owned(), current_version_id: 3 });
    assert_eq!(v.location(), "vl");
    assert_eq!(v.sequence_number(), 3);
    let m = TabularMetadata::MaterializedView(MaterializedViewMetadata {
        location: "ml".to_owned(),
        current_version_id: 4,
    });
    assert_eq!(m.location(), "ml");
    assert_eq!(m.sequence_number(), 4);
    let mv = Tabular::MaterializedView(MaterializedView {
        identifier: Identifier::new(vec![], "mv".to_owned()),
        metadata: MaterializedViewMetadata { location: "ml".to_owned(), current_version_id: 4 },
    });
    assert_eq!(mv.identifier().name(), "mv");
}

#[test]
fn table_builder_seeds_the_default_write_configuration() {
    let builder: CreateTableBuilder = Table::builder();
    assert_eq!(builder.properties.len(), 3);
    assert_eq!(builder.properties[0].0, WRITE_PARQUET_COMPRESSION_CODEC);
    assert_eq!(builder.properties[0].1, "zstd");
    assert_eq!(builder.properties[1].1, "1");
    assert_eq!(builder.properties[2].1, "false");
}

#[test]
fn transactions_stage_operations_in_order() {
    let mut table = Table::new(
        Identifier::new(vec!["ns".to_owned()], "t".to_owned()),
        base_metadata(),
    );
    let mut tx = table.new_transaction(None);
    tx.update_properties(vec![("k".to_owned(), "v".to_owned())]);
    tx.append(vec![]);
    assert_eq!(tx.operations().len(), 2);
    let ops = tx.take_operations();
    assert_eq!(ops.len(), 2);
    assert_eq!(tx.operations().len(), 0);
    assert!(matches!(ops[0], iceberg_core::operation::Operation::UpdateProperties(_)));
    assert!(matches!(ops[1], iceberg_core::operation::Operation::Append { .. }));
}

#[test]
fn rest_models_carry_their_parts() {
    let response = CommitTableResponse::new("loc".to_owned(), base_metadata());
    assert_eq!(response.metadata_location, "loc");
    let request = CommitTransactionRequest::new(vec![CommitTable {
        identifier: Identifier::new(vec![], "t".to_owned()),
        requirements: vec![],
        updates: vec![],
    }]);
    assert_eq!(request.table_changes.len(), 1);
    let credential = StorageCredential::new("s3://p".to_owned(), vec![]);
    assert_eq!(credential.prefix, "s3://p");
    let loaded = LoadTableResult::new(base_metadata());
    assert!(loaded.metadata_location.is_none());
    assert!(loaded.config.is_none());
    let namespaces = UpdateNamespacePropertiesRequest::new();
    assert!(namespaces.removals.is_none());
    assert!(namespaces.updates.is_none());
}

#[test]
fn balanced_split_of_distinct_values() {
    let entry = |path: &str, region: &str| ManifestEntry {
        status: Status::Added,
        snapshot_id: Some(1),
        sequence_number: Some(1),
        data_file: DataFile {
            content: Content::Data,
            file_path: path.to_owned(),
            partition: Struct {
                fields: vec![iceberg_core::values::StructField {
                    name: "region".to_owned(),
                    value: Some(Value::Str(region.to_owned())),
                }],
            },
            record_count: 1,
            file_size_in_bytes: 0,
        },
    };
    let regions = ["a", "b", "c", "d", "e", "f", "g", "h"];
    let mut entries = Vec::new();
    for (i, r) in regions.iter().enumerate() {
        entries.push(entry(&format!("f{}", i), r));
    }
    let rect = Rectangle::new(
        vec![Value::Str("a".to_owned())],
        vec![Value::Str("h".to_owned())],
    )
    .unwrap();
    let groups = iceberg_core::append::split_datafiles(
        entries,
        rect,
        &vec!["region".to_owned()],
        1,
    )
    .unwrap();
    assert_eq!(groups.len(), 2);
    let total: usize = groups.iter().map(|g| g.len()).sum();
    assert_eq!(total, 8);
    // no group holds more than twice its fair share
    for g in &groups {
        assert!(g.len() <= 8);
    }
    assert_eq!(groups[0].len(), 4);
    assert_eq!(groups[1].len(), 4);
}

#[test]
fn manifest_list_writer_collects_headers_and_finishes() {
    let md = base_metadata();
    let mut writer = iceberg_core::manifest_list::ManifestListWriter::try_new(&md, None).unwrap();
    let sid = writer.snapshot_id();
    assert!(sid >= 0);
    writer.append_ser(header("carried", Some(1), Some(1), 0));
    let plans = writer
        .append_manifest_entries_to_new_manifests(vec![vec![plain_entry(
            "a",
            2,
            Some(1),
            Content::Data,
        )]])
        .unwrap();
    assert_eq!(plans.len(), 1);
    assert_eq!(plans[0].header.added_files_count, Some(1));
    assert_eq!(plans[0].header.added_rows_count, Some(2));
    assert_eq!(plans[0].header.added_snapshot_id, sid);
    let (snapshot, entries) = writer.finish(SummaryOperation::Append, None);
    assert_eq!(snapshot.snapshot_id, sid);
    // a fresh branch starts at sequence zero, under the resolved schema,
    // at the snap-<id><uuid>.avro location
    assert_eq!(snapshot.sequence_number, 0);
    assert_eq!(snapshot.schema_id, Some(0));
    let prefix = format!("s3://bucket/table/metadata/snap-{}", sid);
    assert!(snapshot.manifest_list.starts_with(&prefix));
    assert!(snapshot.manifest_list.ends_with(".avro"));
    assert_eq!(entries.len(), 2);
    assert_eq!(entries[0].manifest_path, "carried");
    assert_eq!(entries[1].manifest_path, plans[0].header.manifest_path);
    // the fresh manifest is numbered from zero under the metadata
    // directory
    assert!(plans[0].header.manifest_path.starts_with("s3://bucket/table/metadata/"));
    assert!(plans[0].header.manifest_path.ends_with("-m0.avro"));
}

#[test]
fn list_writer_continues_the_branch_sequence() {
    let mut md = base_metadata();
    md.snapshots = vec![Snapshot {
        snapshot_id: 5,
        sequence_number: 3,
        manifest_list: "l".to_owned(),
        schema_id: Some(0),
        summary: Summary { operation: SummaryOperation::Append, other: vec![] },
    }];
    md.refs = vec![(
        "main".to_owned(),
        SnapshotReference {
            snapshot_id: 5,
            retention: iceberg_core::snapshot::SnapshotRetention::default(),
        },
    )];
    md.current_snapshot_id = Some(5);
    md.last_sequence_number = 3;
    let writer = iceberg_core::manifest_list::ManifestListWriter::try_new(&md, None).unwrap();
    let (snapshot, _) = writer.finish(SummaryOperation::Append, None);
    assert_eq!(snapshot.sequence_number, 4);
}

#[test]
fn list_writer_refuses_an_unresolvable_schema() {
    let mut md = base_metadata();
    md.snapshots = vec![Snapshot {
        snapshot_id: 5,
        sequence_number: 0,
        manifest_list: "l".to_owned(),
        schema_id: Some(99),
        summary: Summary { operation: SummaryOperation::Append, other: vec![] },
    }];
    md.current_snapshot_id = Some(5);
    let r = iceberg_core::manifest_list::ManifestListWriter::try_new(&md, None);
    assert!(matches!(r, Err(Error::InvalidFormat(_))));
}

#[test]
fn list_writer_extends_an_existing_manifest_with_counts() {
    let md = base_metadata();
    let mut writer = iceberg_core::manifest_list::ManifestListWriter::try_new(&md, None).unwrap();
    let plan = writer
        .append_manifests_entries_to_existing_manifest(
            header("m0", Some(3), Some(30), 0),
            vec![plain_entry("old", 30, Some(0), Content::Data)],
            vec![plain_entry("new", 7, Some(1), Content::Data)],
        )
        .unwrap();
    assert_eq!(plan.header.manifest_path, "m0");
    assert_eq!(plan.header.added_files_count, Some(4));
    assert_eq!(plan.header.added_rows_count, Some(37));
    assert_eq!(plan.entries.len(), 2);
}

#[test]
fn flag_filter_keeps_exactly_the_flagged_manifests() {
    let manifests = vec![
        header("m-a", None, None, 0),
        header("m-b", None, None, 0),
        header("m-c", None, None, 0),
    ];
    let kept = iceberg_core::scan::select_manifests_by_flags(
        manifests,
        Some(vec![true, false, true]),
    );
    assert_eq!(kept.len(), 2);
    assert_eq!(kept[0].manifest_path, "m-a");
    assert_eq!(kept[1].manifest_path, "m-c");
    let all = iceberg_core::scan::select_manifests_by_flags(
        vec![header("m-a", None, None, 0)],
        None,
    );
    assert_eq!(all.len(), 1);
}

#[test]
fn scan_collects_the_paths_to_delete() {
    let entries = vec![
        plain_entry("d1", 1, Some(1), Content::Data),
        plain_entry("d2", 1, Some(1), Content::Data),
    ];
    let data = iceberg_core::scan::data_file_paths(&entries);
    assert_eq!(data, vec!["d1".to_owned(), "d2".to_owned()]);
    let manifests = vec![header("m1", None, None, 0), header("m2", None, None, 0)];
    let paths = iceberg_core::scan::manifest_paths(&manifests);
    assert_eq!(paths, vec!["m1".to_owned(), "m2".to_owned()]);
}

#[test]
fn current_schema_follows_the_branch_snapshot() {
    let mut md = base_metadata();
    md.schemas = vec![
        Schema { schema_id: 0, fields: vec![] },
        Schema { schema_id: 7, fields: vec![] },
    ];
    md.snapshots = vec![Snapshot {
        snapshot_id: 5,
        sequence_number: 0,
        manifest_list: "l".to_owned(),
        schema_id: Some(7),
        summary: Summary { operation: SummaryOperation::Append, other: vec![] },
    }];
    md.current_snapshot_id = Some(5);
    // the branch snapshot's recorded schema wins
    assert_eq!(md.current_schema(None).unwrap().schema_id, 7);
    // an unrecorded schema id is an error
    md.snapshots[0].schema_id = Some(99);
    assert!(md.current_schema(None).is_err());
}

#[test]
fn extending_a_manifest_appends_behind_the_carried_entries() {
    let existing = header("m0", Some(1), Some(7), 0);
    let plan = iceberg_core::operation::extend_manifest(
        existing,
        vec![plain_entry("old", 7, Some(0), Content::Data)],
        vec![plain_entry("new", 3, Some(1), Content::Data)],
        &vec![],
        9,
        1,
    )
    .unwrap();
    assert_eq!(plan.header.manifest_path, "m0");
    assert_eq!(plan.header.added_files_count, Some(2));
    assert_eq!(plan.header.added_rows_count, Some(10));
    assert_eq!(plan.entries.len(), 2);
    assert_eq!(plan.entries[0].data_file.file_path, "old");
    assert_eq!(plan.entries[1].data_file.file_path, "new");
    assert_eq!(plan.header.added_snapshot_id, 9);
}

#[test]
fn deeper_splits_stay_balanced() {
    let entry = |path: &str, day: i32| ManifestEntry {
        status: Status::Added,
        snapshot_id: Some(1),
        sequence_number: Some(1),
        data_file: DataFile {
            content: Content::Data,
            file_path: path.to_owned(),
            partition: Struct {
                fields: vec![iceberg_core::values::StructField {
                    name: "day".to_owned(),
                    value: Some(Value::Int(day)),
                }],
            },
            record_count: 1,
            file_size_in_bytes: 0,
        },
    };
    let mut entries = Vec::new();
    for day in 0..12 {
        entries.push(entry(&format!("f{}", day), day));
    }
    let rect = Rectangle::new(vec![Value::Int(0)], vec![Value::Int(11)]).unwrap();
    let groups =
        iceberg_core::append::split_datafiles(entries, rect, &vec!["day".to_owned()], 2).unwrap();
    assert_eq!(groups.len(), 4);
    let total: usize = groups.iter().map(|g| g.len()).sum();
    assert_eq!(total, 12);
    // no group over the rounded-up fair share: ceil(12 / 4) = 3
    for g in &groups {
        assert!(g.len() <= 3);
    }
}

#[test]
fn ranged_listing_names_the_end_snapshot_and_floor() {
    let mut md = base_metadata();
    md.snapshots = vec![
        Snapshot {
            snapshot_id: 1,
            sequence_number: 0,
            manifest_list: "list-1".to_owned(),
            schema_id: Some(0),
            summary: Summary { operation: SummaryOperation::Append, other: vec![] },
        },
        Snapshot {
            snapshot_id: 2,
            sequence_number: 3,
            manifest_list: "list-2".to_owned(),
            schema_id: Some(0),
            summary: Summary { operation: SummaryOperation::Append, other: vec![] },
        },
    ];
    md.last_sequence_number = 3;
    md.current_snapshot_id = Some(2);
    let table = Table::new(Identifier::new(vec![], "t".to_owned()), md);
    // the named end snapshot wins; a start at sequence zero sets no floor
    let (path, floor) =
        iceberg_core::scan::manifests_read_plan(&table, Some(1), Some(2)).unwrap().unwrap();
    assert_eq!(path, "list-2");
    assert_eq!(floor, None);
    // a start with a positive sequence number becomes the floor
    let (path, floor) =
        iceberg_core::scan::manifests_read_plan(&table, Some(2), None).unwrap().unwrap();
    assert_eq!(path, "list-2");
    assert_eq!(floor, Some(3));
}
