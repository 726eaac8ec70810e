//! Table schemas: named, typed, identified columns.

use vstd::prelude::*;

use crate::search::{first_where, lemma_first_where_determined};

verus! {

/// The scalar column types the partition machinery understands.
#[derive(Debug, Clone, Copy, PartialEq, Eq, Structural)]
pub enum PrimitiveType {
    /// A boolean column.
    Boolean,
    /// A 32-bit integer column.
    Int,
    /// A 64-bit integer column.
    Long,
    /// A date column.
    Date,
    /// A time-of-day column.
    Time,
    /// A timestamp column without zone.
    Timestamp,
    /// A timestamp column with zone.
    TimestampTz,
    /// A string column.
    Str,
}

/// One column of a table schema.
#[derive(Debug)]
pub struct SchemaField {
    /// The column id, unique within the schema.
    pub id: i32,
    /// The column name.
    pub name: String,
    /// Whether the column is required (not nullable).
    pub required: bool,
    /// The column type.
    pub field_type: PrimitiveType,
}

impl Clone for SchemaField {
    /// A clone is the same column.
    fn clone(&self) -> (r: Self)
        ensures
            r == *self,
    {
        SchemaField {
            id: self.id,
            name: self.name.clone(),
            required: self.required,
            field_type: self.field_type,
        }
    }
}

/// A table schema: an identified list of columns.
#[derive(Debug)]
pub struct Schema {
    /// The schema id, unique within the table metadata.
    pub schema_id: i32,
    /// The columns.
    pub fields: Vec<SchemaField>,
}

impl Clone for Schema {
    /// A clone carries the same id and columns.
    fn clone(&self) -> (r: Self)
        ensures
            r.schema_id == self.schema_id,
            r.fields@ == self.fields@,
    {
        let fields = self.fields.clone();
        proof {
            assert(fields@ =~= self.fields@);
        }
        Schema { schema_id: self.schema_id, fields }
    }
}

/// Whether a column carries the given id.
pub open spec fn column_with_id(id: i32) -> spec_fn(SchemaField) -> bool {
    |f: SchemaField| f.id == id
}

/// The first column of `s` with the given id, if any.
pub open spec fn spec_column_by_id(s: Schema, id: i32) -> Option<SchemaField> {
    let i = first_where(s.fields@, column_with_id(id));
    if i == -1 {
        None
    } else {
        Some(s.fields@[i])
    }
}

impl Schema {
    /// The schema id.
    pub fn schema_id(&self) -> (r: &i32)
        ensures
            *r == self.schema_id,
    {
        &self.schema_id
    }

    /// The columns.
    pub fn fields(&self) -> (r: &Vec<SchemaField>)
        ensures
            r == &self.fields,
    {
        &self.fields
    }

    /// The first column with the given id, if any.
    pub fn column_by_id(&self, id: i32) -> (r: Option<&SchemaField>)
        ensures
            match r {
                Some(f) => spec_column_by_id(*self, id) == Some(*f),
                None => spec_column_by_id(*self, id) is None,
            },
    {
        let n = self.fields.len();
        let mut i: usize = 0;
        while i < n
            invariant
                i <= n,
                n == self.fields@.len(),
                forall|j: int| 0 <= j < i ==> !(column_with_id(id)(self.fields@[j])),
            decreases n - i,
        {
            if self.fields[i].id == id {
                proof {
                    lemma_first_where_determined(self.fields@, column_with_id(id), i as int);
                }
                return Some(&self.fields[i]);
            }
            i = i + 1;
        }
        proof {
            lemma_first_where_determined(self.fields@, column_with_id(id), n as int);
        }
        None
    }

    /// The largest column id, if the schema has columns.
    pub fn max_column_id(&self) -> (r: Option<i32>)
        ensures
            r is Some <==> self.fields@.len() > 0,
            r matches Some(m) ==> (exists|i: int|
                0 <= i < self.fields@.len() && self.fields@[i].id == m),
            r matches Some(m) ==> (forall|i: int|
                0 <= i < self.fields@.len() ==> (#[trigger] self.fields@[i].id) <= m),
    {
        let n = self.fields.len();
        if n == 0 {
            return None;
        }
        let mut m = self.fields[0].id;
        let mut i: usize = 1;
        while i < n
            invariant
                1 <= i <= n,
                n == self.fields@.len(),
                exists|j: int| 0 <= j < i && self.fields@[j].id == m,
                forall|j: int| 0 <= j < i ==> (#[trigger] self.fields@[j].id) <= m,
            decreases n - i,
        {
            if self.fields[i].id > m {
                m = self.fields[i].id;
            }
            i = i + 1;
        }
        Some(m)
    }
}

} // verus!
