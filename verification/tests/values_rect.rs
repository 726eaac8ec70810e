//! Ordering, bounding rectangles and path naming.

use iceberg_core::error::Error;
use iceberg_core::paths::{manifest_list_location, manifest_location};
use iceberg_core::rectangle::Rectangle;
use iceberg_core::values::{partition_struct_to_vec, Struct, StructField, Value};

fn text(s: &str) -> Value {
    Value::Str(s.to_owned())
}

#[test]
fn compare_strings_lexicographically() {
    let eu = text("EU");
    let us = text("US");
    assert!(matches!(eu.compare(&us), Ok(core::cmp::Ordering::Less)));
    assert!(matches!(us.compare(&eu), Ok(core::cmp::Ordering::Greater)));
    assert!(matches!(eu.compare(&text("EU")), Ok(core::cmp::Ordering::Equal)));
}

#[test]
fn compare_numbers() {
    assert!(matches!(
        Value::Int(3).compare(&Value::Int(5)),
        Ok(core::cmp::Ordering::Less)
    ));
    assert!(matches!(
        Value::Long(9).compare(&Value::Long(9)),
        Ok(core::cmp::Ordering::Equal)
    ));
}

#[test]
fn compare_mixed_types_fails() {
    let r = Value::Int(1).compare(&Value::Long(1));
    assert!(matches!(r, Err(Error::Type(_, _))));
}

#[test]
fn rectangle_expands_componentwise() {
    let mut rect = Rectangle::degenerate(vec![Value::Int(5), text("EU")]);
    rect.expand_with_node(&vec![Value::Int(2), text("US")]).unwrap();
    rect.expand_with_node(&vec![Value::Int(9), text("AT")]).unwrap();
    assert_eq!(rect.dims(), 2);
    assert!(matches!(rect.min_at(0), Value::Int(2)));
    assert!(matches!(rect.max_at(0), Value::Int(9)));
    match rect.min_at(1) {
        Value::Str(s) => assert_eq!(s, "AT"),
        _ => panic!("wrong type"),
    }
    match rect.max_at(1) {
        Value::Str(s) => assert_eq!(s, "US"),
        _ => panic!("wrong type"),
    }
}

#[test]
fn rectangle_priority_order_prefers_first_dimension() {
    // widths (0, 5) against (1, 0): the first dimension decides
    let narrow = Rectangle::new(
        vec![Value::Int(0), Value::Int(0)],
        vec![Value::Int(0), Value::Int(5)],
    )
    .unwrap();
    let wide = Rectangle::new(
        vec![Value::Int(0), Value::Int(0)],
        vec![Value::Int(1), Value::Int(0)],
    )
    .unwrap();
    assert!(matches!(
        narrow.cmp_with_priority(&wide),
        Ok(core::cmp::Ordering::Less)
    ));
    assert!(matches!(
        wide.cmp_with_priority(&narrow),
        Ok(core::cmp::Ordering::Greater)
    ));
    assert!(matches!(
        narrow.cmp_with_priority(&narrow),
        Ok(core::cmp::Ordering::Equal)
    ));
}

#[test]
fn rectangle_new_rejects_unordered_bounds() {
    let r = Rectangle::new(vec![Value::Int(3)], vec![Value::Int(1)]);
    assert!(matches!(r, Err(Error::Type(_, _))));
}

#[test]
fn partition_projection_picks_named_fields() {
    let partition = Struct {
        fields: vec![
            StructField { name: "region".to_owned(), value: Some(text("EU")) },
            StructField { name: "day".to_owned(), value: Some(Value::Int(7)) },
        ],
    };
    let values =
        partition_struct_to_vec(&partition, &vec!["day".to_owned(), "region".to_owned()]).unwrap();
    assert_eq!(values.len(), 2);
    assert!(matches!(values[0], Value::Int(7)));
    match &values[1] {
        Value::Str(s) => assert_eq!(s, "EU"),
        _ => panic!("wrong type"),
    }
}

#[test]
fn partition_projection_rejects_missing_column() {
    let partition = Struct { fields: vec![] };
    let r = partition_struct_to_vec(&partition, &vec!["region".to_owned()]);
    assert!(matches!(r, Err(Error::NotFound(_, _))));
}

#[test]
fn partition_projection_rejects_null_value() {
    let partition = Struct {
        fields: vec![StructField { name: "region".to_owned(), value: None }],
    };
    let r = partition_struct_to_vec(&partition, &vec!["region".to_owned()]);
    assert!(matches!(r, Err(Error::NotFound(_, _))));
}

#[test]
fn manifest_paths_follow_the_naming_scheme() {
    let location = "s3://bucket/table".to_owned();
    let uuid = "0000".to_owned();
    assert_eq!(
        manifest_location(&location, &uuid, 0),
        "s3://bucket/table/metadata/0000-m0.avro"
    );
    assert_eq!(
        manifest_location(&location, &uuid, 17),
        "s3://bucket/table/metadata/0000-m17.avro"
    );
    assert_eq!(
        manifest_list_location(&location, 42, &uuid),
        "s3://bucket/table/metadata/snap-420000.avro"
    );
}
