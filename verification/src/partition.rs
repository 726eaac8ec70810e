//! Partition specs: the ordered list of partition fields that defines how
//! data files are grouped, and the derivation of the partition-tuple
//! record layout from the table schema.

use vstd::prelude::*;

use crate::error::Error;
use crate::schema::{spec_column_by_id, PrimitiveType, Schema};

verus! {

/// A partition transform.  Only identity partitioning is modelled: each
/// partition field carries its source column's value unchanged.
#[derive(Debug, Clone, Copy, PartialEq, Eq, Structural)]
pub enum Transform {
    /// The value is the source column's value.
    Identity,
}

/// One field of a partition spec.
#[derive(Debug)]
pub struct PartitionField {
    /// The id of the source column in the table schema.
    pub source_id: i32,
    /// The id of this partition field.
    pub field_id: i32,
    /// The partition field name.
    pub name: String,
    /// How the source column is turned into the partition value.
    pub transform: Transform,
}

impl Clone for PartitionField {
    /// A clone is the same field.
    fn clone(&self) -> (r: Self)
        ensures
            r == *self,
    {
        PartitionField {
            source_id: self.source_id,
            field_id: self.field_id,
            name: self.name.clone(),
            transform: self.transform,
        }
    }
}

/// A partition spec: an identified, ordered list of partition fields;
/// index 0 is the most significant dimension.
#[derive(Debug)]
pub struct PartitionSpec {
    /// The spec id, unique within the table metadata.
    pub spec_id: i32,
    /// The partition fields, most significant first.
    pub fields: Vec<PartitionField>,
}

impl Clone for PartitionSpec {
    /// A clone carries the same id and fields.
    fn clone(&self) -> (r: Self)
        ensures
            r.spec_id == self.spec_id,
            r.fields@ == self.fields@,
    {
        let fields = self.fields.clone();
        proof {
            assert(fields@ =~= self.fields@);
        }
        PartitionSpec { spec_id: self.spec_id, fields }
    }
}

impl PartitionSpec {
    /// The spec id.
    pub fn spec_id(&self) -> (r: &i32)
        ensures
            *r == self.spec_id,
    {
        &self.spec_id
    }

    /// The partition fields.
    pub fn fields(&self) -> (r: &Vec<PartitionField>)
        ensures
            r == &self.fields,
    {
        &self.fields
    }

    /// The partition field names, most significant first.
    pub fn field_names(&self) -> (r: Vec<String>)
        ensures
            r@.len() == self.fields@.len(),
            forall|i: int| 0 <= i < r@.len() ==> r@[i]@ == (#[trigger] self.fields@[i]).name@,
    {
        let mut out: Vec<String> = Vec::new();
        let n = self.fields.len();
        let mut i: usize = 0;
        while i < n
            invariant
                i <= n,
                n == self.fields@.len(),
                out@.len() == i as int,
                forall|j: int| 0 <= j < i ==> out@[j]@ == (#[trigger] self.fields@[j]).name@,
            decreases n - i,
        {
            out.push(self.fields[i].name.clone());
            i = i + 1;
        }
        out
    }
}

/// One column of the derived partition-tuple record layout.
#[derive(Debug)]
pub struct PartitionValueField {
    /// The partition field id.
    pub field_id: i32,
    /// The partition field name.
    pub name: String,
    /// The scalar type, taken from the source column of the table schema.
    pub field_type: PrimitiveType,
}

impl Clone for PartitionValueField {
    /// A clone is the same column.
    fn clone(&self) -> (r: Self)
        ensures
            r == *self,
    {
        PartitionValueField {
            field_id: self.field_id,
            name: self.name.clone(),
            field_type: self.field_type,
        }
    }
}

/// Derive the partition-tuple record layout for a spec against a schema:
/// each partition field becomes an optional column whose type is looked
/// up by `source_id` in the table schema.  Fails with `Schema` when a
/// source column is missing.
pub fn partition_value_fields(spec: &PartitionSpec, schema: &Schema) -> (r: Result<
    Vec<PartitionValueField>,
    Error,
>)
    ensures
        r matches Ok(v) ==> {
            &&& v@.len() == spec.fields@.len()
            &&& forall|i: int|
                0 <= i < v@.len() ==> {
                    let pf = #[trigger] spec.fields@[i];
                    &&& v@[i].field_id == pf.field_id
                    &&& v@[i].name@ == pf.name@
                    &&& spec_column_by_id(*schema, pf.source_id) matches Some(c) && v@[i].field_type
                        == c.field_type
                }
        },
        r is Err ==> exists|i: int|
            0 <= i < spec.fields@.len() && spec_column_by_id(
                *schema,
                (#[trigger] spec.fields@[i]).source_id,
            ) is None,
{
    let mut out: Vec<PartitionValueField> = Vec::new();
    let n = spec.fields.len();
    let mut i: usize = 0;
    while i < n
        invariant
            i <= n,
            n == spec.fields@.len(),
            out@.len() == i as int,
            forall|j: int|
                0 <= j < i ==> {
                    let pf = #[trigger] spec.fields@[j];
                    &&& out@[j].field_id == pf.field_id
                    &&& out@[j].name@ == pf.name@
                    &&& spec_column_by_id(*schema, pf.source_id) matches Some(c)
                        && out@[j].field_type == c.field_type
                },
        decreases n - i,
    {
        let pf = &spec.fields[i];
        match schema.column_by_id(pf.source_id) {
            Some(col) => {
                out.push(
                    PartitionValueField {
                        field_id: pf.field_id,
                        name: pf.name.clone(),
                        field_type: col.field_type,
                    },
                );
            },
            None => {
                return Err(Error::Schema("partition source column".to_owned(), "table schema".to_owned()));
            },
        }
        i = i + 1;
    }
    Ok(out)
}

} // verus!
