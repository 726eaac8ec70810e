//! Partition values: the typed scalars that partition tuples are made of,
//! their per-type total order, and the partition `Struct` that maps field
//! names to optional values.

use vstd::prelude::*;

use crate::error::Error;
use crate::search::{first_where, lemma_first_where_determined, lemma_first_where_props};

verus! {

/// A typed scalar value of a partition tuple.
///
/// Each variant is one scalar type of the table format; values of the same
/// variant are totally ordered (numerically, or lexicographically by
/// character for `Str`), values of different variants are incomparable.
#[derive(Debug)]
pub enum Value {
    /// A boolean, ordered with `false < true`.
    Boolean(bool),
    /// A 32-bit integer.
    Int(i32),
    /// A 64-bit integer.
    Long(i64),
    /// A date, as days since the epoch.
    Date(i32),
    /// A time of day, as microseconds since midnight.
    Time(i64),
    /// A timestamp without zone, as microseconds since the epoch.
    Timestamp(i64),
    /// A timestamp with zone, as microseconds since the epoch.
    TimestampTz(i64),
    /// A string, ordered lexicographically by character.
    Str(String),
}

/// A small integer naming the scalar type of `v`.
pub open spec fn tag(v: Value) -> int {
    match v {
        Value::Boolean(_) => 0,
        Value::Int(_) => 1,
        Value::Long(_) => 2,
        Value::Date(_) => 3,
        Value::Time(_) => 4,
        Value::Timestamp(_) => 5,
        Value::TimestampTz(_) => 6,
        Value::Str(_) => 7,
    }
}

/// Whether `v` is the string variant.
pub open spec fn is_text(v: Value) -> bool {
    v is Str
}

/// The numeric content of a non-string value (`false` is 0, `true` is 1).
pub open spec fn num(v: Value) -> int {
    match v {
        Value::Boolean(b) => if b {
            1
        } else {
            0
        },
        Value::Int(i) => i as int,
        Value::Long(i) => i as int,
        Value::Date(i) => i as int,
        Value::Time(i) => i as int,
        Value::Timestamp(i) => i as int,
        Value::TimestampTz(i) => i as int,
        Value::Str(_) => 0,
    }
}

/// The character content of a string value.
pub open spec fn text(v: Value) -> Seq<char> {
    match v {
        Value::Str(s) => s@,
        _ => Seq::empty(),
    }
}

/// Two values compare at all exactly when they have the same scalar type.
pub open spec fn comparable(a: Value, b: Value) -> bool {
    tag(a) == tag(b)
}

/// Equality of character sequences by character code.
pub open spec fn text_eq(a: Seq<char>, b: Seq<char>) -> bool {
    a.len() == b.len() && forall|j: int| 0 <= j < a.len() ==> a[j] as u32 == b[j] as u32
}

/// Strict lexicographic order on character sequences.
pub open spec fn text_lt(a: Seq<char>, b: Seq<char>) -> bool
    decreases a.len(),
{
    if b.len() == 0 {
        false
    } else if a.len() == 0 {
        true
    } else if a[0] as u32 != b[0] as u32 {
        (a[0] as u32) < (b[0] as u32)
    } else {
        text_lt(a.skip(1), b.skip(1))
    }
}

/// Strict order on comparable values.
pub open spec fn val_lt(a: Value, b: Value) -> bool
    recommends
        comparable(a, b),
{
    if is_text(a) {
        text_lt(text(a), text(b))
    } else {
        num(a) < num(b)
    }
}

/// Equality of comparable values, by content (strings by character code).
pub open spec fn val_eq(a: Value, b: Value) -> bool {
    comparable(a, b) && if is_text(a) {
        text_eq(text(a), text(b))
    } else {
        num(a) == num(b)
    }
}

/// Non-strict order on comparable values.
pub open spec fn val_le(a: Value, b: Value) -> bool
    recommends
        comparable(a, b),
{
    val_lt(a, b) || val_eq(a, b)
}

/// The width of the closed interval `[lo, hi]` of comparable values: the
/// numeric difference for non-string types, and for strings the coarse
/// measure that only tells a degenerate interval (0) from an extended one
/// (1), since no finer distance exists on strings.
pub open spec fn spec_width(lo: Value, hi: Value) -> int
    recommends
        comparable(lo, hi),
{
    if is_text(lo) {
        if text_eq(text(lo), text(hi)) {
            0
        } else {
            1
        }
    } else {
        num(hi) - num(lo)
    }
}

/// The smaller of two comparable values; ties keep the first.
pub open spec fn val_min(a: Value, b: Value) -> Value
    recommends
        comparable(a, b),
{
    if val_lt(b, a) {
        b
    } else {
        a
    }
}

/// The larger of two comparable values; ties keep the first.
pub open spec fn val_max(a: Value, b: Value) -> Value
    recommends
        comparable(a, b),
{
    if val_lt(a, b) {
        b
    } else {
        a
    }
}

/// The lexicographic order is total: two sequences are ordered or equal
/// character code by character code.
pub proof fn lemma_text_total(a: Seq<char>, b: Seq<char>)
    ensures
        text_lt(a, b) || text_lt(b, a) || text_eq(a, b),
    decreases a.len(),
{
    if a.len() != 0 && b.len() != 0 && a[0] as u32 == b[0] as u32 {
        lemma_text_total(a.skip(1), b.skip(1));
        if text_eq(a.skip(1), b.skip(1)) {
            assert forall|j: int| 0 <= j < a.len() implies a[j] as u32 == b[j] as u32 by {
                if j > 0 {
                    assert(a.skip(1)[j - 1] == a[j]);
                    assert(b.skip(1)[j - 1] == b[j]);
                }
            }
        }
    }
}

/// The lexicographic order is irreflexive.
pub proof fn lemma_text_irrefl(a: Seq<char>, b: Seq<char>)
    requires
        text_eq(a, b),
    ensures
        !text_lt(a, b),
    decreases a.len(),
{
    if a.len() != 0 {
        assert(a.skip(1).len() == b.skip(1).len());
        assert forall|j: int| 0 <= j < a.skip(1).len() implies a.skip(1)[j] as u32 == b.skip(1)[j]
            as u32 by {
            assert(a.skip(1)[j] == a[j + 1]);
            assert(b.skip(1)[j] == b[j + 1]);
        }
        lemma_text_irrefl(a.skip(1), b.skip(1));
    }
}

/// The lexicographic order is transitive.
pub proof fn lemma_text_lt_trans(a: Seq<char>, b: Seq<char>, c: Seq<char>)
    requires
        text_lt(a, b),
        text_lt(b, c),
    ensures
        text_lt(a, c),
    decreases a.len(),
{
    if a.len() != 0 {
        assert(b.len() != 0);
        assert(c.len() != 0);
        if a[0] as u32 == b[0] as u32 && b[0] as u32 == c[0] as u32 {
            lemma_text_lt_trans(a.skip(1), b.skip(1), c.skip(1));
        }
    }
}

/// The lexicographic order is asymmetric.
pub proof fn lemma_text_asym(a: Seq<char>, b: Seq<char>)
    requires
        text_lt(a, b),
    ensures
        !text_lt(b, a),
        !text_eq(a, b),
    decreases a.len(),
{
    if a.len() == 0 {
        assert(b.len() != 0);
    } else if a[0] as u32 == b[0] as u32 {
        lemma_text_asym(a.skip(1), b.skip(1));
        if text_eq(a, b) {
            assert forall|j: int| 0 <= j < a.skip(1).len() implies a.skip(1)[j] as u32 == b.skip(
                1,
            )[j] as u32 by {
                assert(a.skip(1)[j] == a[j + 1]);
                assert(b.skip(1)[j] == b[j + 1]);
            }
        }
    }
}

/// The order on comparable values is total.
pub proof fn lemma_val_total(a: Value, b: Value)
    requires
        comparable(a, b),
    ensures
        val_lt(a, b) || val_lt(b, a) || val_eq(a, b),
{
    if is_text(a) {
        lemma_text_total(text(a), text(b));
    }
}

/// Strictly ordered values are not equal nor ordered the other way.
pub proof fn lemma_val_asym(a: Value, b: Value)
    requires
        comparable(a, b),
        val_lt(a, b),
    ensures
        !val_lt(b, a),
        !val_eq(a, b),
{
    if is_text(a) {
        lemma_text_asym(text(a), text(b));
    }
}

/// Replacing the right side by a code-equal sequence keeps the order.
proof fn lemma_text_lt_congr_right(a: Seq<char>, b: Seq<char>, c: Seq<char>)
    requires
        text_lt(a, b),
        text_eq(b, c),
    ensures
        text_lt(a, c),
    decreases a.len(),
{
    assert(b.len() == c.len());
    assert(b.len() > 0);
    if a.len() != 0 {
        assert(b[0] as u32 == c[0] as u32);
        if a[0] as u32 == b[0] as u32 {
            assert forall|j: int| 0 <= j < b.skip(1).len() implies b.skip(1)[j] as u32 == c.skip(
                1,
            )[j] as u32 by {
                assert(b.skip(1)[j] == b[j + 1]);
                assert(c.skip(1)[j] == c[j + 1]);
            }
            lemma_text_lt_congr_right(a.skip(1), b.skip(1), c.skip(1));
        }
    }
}

/// Replacing the left side by a code-equal sequence keeps the order.
proof fn lemma_text_lt_congr_left(a: Seq<char>, b: Seq<char>, c: Seq<char>)
    requires
        text_eq(a, b),
        text_lt(b, c),
    ensures
        text_lt(a, c),
    decreases a.len(),
{
    assert(a.len() == b.len());
    assert(c.len() > 0);
    if b.len() != 0 {
        assert(a[0] as u32 == b[0] as u32);
        if b[0] as u32 == c[0] as u32 {
            assert forall|j: int| 0 <= j < a.skip(1).len() implies a.skip(1)[j] as u32 == b.skip(
                1,
            )[j] as u32 by {
                assert(a.skip(1)[j] == a[j + 1]);
                assert(b.skip(1)[j] == b[j + 1]);
            }
            lemma_text_lt_congr_left(a.skip(1), b.skip(1), c.skip(1));
        }
    }
}

/// Content equality of values is symmetric and transitive.
pub proof fn lemma_val_eq_sym_trans(a: Value, b: Value, c: Value)
    ensures
        val_eq(a, b) ==> val_eq(b, a),
        val_eq(a, b) && val_eq(b, c) ==> val_eq(a, c),
{
    if is_text(a) && is_text(b) {
        if text_eq(text(a), text(b)) {
            assert forall|j: int| 0 <= j < text(b).len() implies text(b)[j] as u32 == text(
                a,
            )[j] as u32 by {}
        }
        if is_text(c) && text_eq(text(a), text(b)) && text_eq(text(b), text(c)) {
            assert forall|j: int| 0 <= j < text(a).len() implies text(a)[j] as u32 == text(
                c,
            )[j] as u32 by {}
        }
    }
}

/// A strict bound composes with a non-strict bound.
pub proof fn lemma_val_lt_le_trans(a: Value, b: Value, c: Value)
    requires
        comparable(a, b),
        comparable(b, c),
        val_lt(a, b),
        val_le(b, c),
    ensures
        val_lt(a, c),
{
    if is_text(a) {
        if text_lt(text(b), text(c)) {
            lemma_text_lt_trans(text(a), text(b), text(c));
        } else {
            lemma_text_lt_congr_right(text(a), text(b), text(c));
        }
    }
}

/// A non-strict bound composes with a strict bound.
pub proof fn lemma_val_le_lt_trans(a: Value, b: Value, c: Value)
    requires
        comparable(a, b),
        comparable(b, c),
        val_le(a, b),
        val_lt(b, c),
    ensures
        val_lt(a, c),
{
    if is_text(a) {
        if text_lt(text(a), text(b)) {
            lemma_text_lt_trans(text(a), text(b), text(c));
        } else {
            lemma_text_lt_congr_left(text(a), text(b), text(c));
        }
    }
}

/// The non-strict order is transitive.
pub proof fn lemma_val_le_trans(a: Value, b: Value, c: Value)
    requires
        comparable(a, b),
        comparable(b, c),
        val_le(a, b),
        val_le(b, c),
    ensures
        val_le(a, c),
{
    if is_text(a) {
        if text_lt(text(a), text(b)) {
            if text_lt(text(b), text(c)) {
                lemma_text_lt_trans(text(a), text(b), text(c));
            } else {
                lemma_text_lt_congr_right(text(a), text(b), text(c));
            }
        } else {
            if text_lt(text(b), text(c)) {
                lemma_text_lt_congr_left(text(a), text(b), text(c));
            }
        }
    }
}

/// Sequences that agree on a prefix order as their first difference says:
/// a mismatching character decides, a common prefix that ends decides.
proof fn lemma_text_cmp_at(a: Seq<char>, b: Seq<char>, i: int)
    requires
        0 <= i <= a.len(),
        i <= b.len(),
        forall|j: int| 0 <= j < i ==> a[j] == b[j],
        i < a.len() && i < b.len() && (a[i] as u32) < (b[i] as u32) || i == a.len() && i < b.len(),
    ensures
        text_lt(a, b),
        !text_lt(b, a),
        !text_eq(a, b),
    decreases i,
{
    if i == 0 {
        if a.len() == 0 {
            assert(b.len() > 0);
            assert(text_lt(a, b));
            assert(!text_lt(b, a));
            assert(a.len() != b.len());
        } else {
            assert(a[0] as u32 != b[0] as u32);
        }
    } else {
        assert(a[0] == b[0]);
        let a1 = a.skip(1);
        let b1 = b.skip(1);
        assert forall|j: int| 0 <= j < i - 1 implies a1[j] == b1[j] by {
            assert(a1[j] == a[j + 1]);
            assert(b1[j] == b[j + 1]);
        }
        if i < a.len() {
            assert(a1[i - 1] == a[i]);
            assert(b1[i - 1] == b[i]);
        }
        lemma_text_cmp_at(a1, b1, i - 1);
        assert(text_lt(a, b));
        assert(!text_lt(b, a));
        assert(!text_eq(a, b)) by {
            if text_eq(a, b) {
                assert forall|j: int| 0 <= j < a1.len() implies a1[j] as u32 == b1[j] as u32 by {
                    assert(a1[j] == a[j + 1]);
                    assert(b1[j] == b[j + 1]);
                }
            }
        }
    }
}

/// Compare two strings lexicographically by character.
fn text_compare(a: &String, b: &String) -> (o: core::cmp::Ordering)
    ensures
        o == core::cmp::Ordering::Less <==> text_lt(a@, b@),
        o == core::cmp::Ordering::Equal <==> text_eq(a@, b@),
        o == core::cmp::Ordering::Greater <==> text_lt(b@, a@),
        o == core::cmp::Ordering::Equal ==> a@ == b@,
{
    let alen = a.as_str().unicode_len();
    let blen = b.as_str().unicode_len();
    let mut i: usize = 0;
    while i < alen && i < blen
        invariant
            i <= alen,
            i <= blen,
            alen == a@.len(),
            blen == b@.len(),
            forall|j: int| 0 <= j < i ==> a@[j] == b@[j],
        decreases alen - i,
    {
        let ca = a.as_str().get_char(i);
        let cb = b.as_str().get_char(i);
        if (ca as u32) < (cb as u32) {
            proof {
                lemma_text_cmp_at(a@, b@, i as int);
            }
            return core::cmp::Ordering::Less;
        }
        if (cb as u32) < (ca as u32) {
            proof {
                lemma_text_cmp_at(b@, a@, i as int);
            }
            return core::cmp::Ordering::Greater;
        }
        assert(ca as u32 == cb as u32);
        assert(ca == cb);
        i = i + 1;
    }
    if alen < blen {
        proof {
            lemma_text_cmp_at(a@, b@, alen as int);
        }
        core::cmp::Ordering::Less
    } else if blen < alen {
        proof {
            lemma_text_cmp_at(b@, a@, blen as int);
        }
        core::cmp::Ordering::Greater
    } else {
        proof {
            assert(a@ =~= b@);
            assert(text_eq(a@, b@));
            lemma_text_irrefl(a@, b@);
        }
        core::cmp::Ordering::Equal
    }
}

impl Value {
    /// The scalar type of the value, as a small integer.
    pub fn type_tag(&self) -> (t: u8)
        ensures
            t as int == tag(*self),
    {
        match self {
            Value::Boolean(_) => 0,
            Value::Int(_) => 1,
            Value::Long(_) => 2,
            Value::Date(_) => 3,
            Value::Time(_) => 4,
            Value::Timestamp(_) => 5,
            Value::TimestampTz(_) => 6,
            Value::Str(_) => 7,
        }
    }

    /// The numeric content of a non-string value.
    fn numeric(&self) -> (n: i128)
        requires
            !is_text(*self),
        ensures
            n as int == num(*self),
            -0x8000_0000_0000_0000 <= n as int <= 0x7fff_ffff_ffff_ffff,
    {
        match self {
            Value::Boolean(b) => if *b {
                1
            } else {
                0
            },
            Value::Int(i) => *i as i128,
            Value::Long(i) => *i as i128,
            Value::Date(i) => *i as i128,
            Value::Time(i) => *i as i128,
            Value::Timestamp(i) => *i as i128,
            Value::TimestampTz(i) => *i as i128,
            Value::Str(_) => 0,
        }
    }

    /// Compare two values of the same scalar type; values of different
    /// types are incomparable and yield a `Type` failure.
    pub fn compare(&self, other: &Value) -> (r: Result<core::cmp::Ordering, Error>)
        ensures
            r is Ok <==> comparable(*self, *other),
            r matches Ok(o) ==> (o == core::cmp::Ordering::Less <==> val_lt(*self, *other)),
            r matches Ok(o) ==> (o == core::cmp::Ordering::Equal <==> val_eq(*self, *other)),
            r matches Ok(o) ==> (o == core::cmp::Ordering::Greater <==> val_lt(*other, *self)),
    {
        if self.type_tag() != other.type_tag() {
            return Err(Error::Type("partition value".to_owned(), "comparable".to_owned()));
        }
        match (self, other) {
            (Value::Str(a), Value::Str(b)) => Ok(text_compare(a, b)),
            _ => {
                let a = self.numeric();
                let b = other.numeric();
                if a < b {
                    Ok(core::cmp::Ordering::Less)
                } else if b < a {
                    Ok(core::cmp::Ordering::Greater)
                } else {
                    Ok(core::cmp::Ordering::Equal)
                }
            },
        }
    }

    /// The width of the interval from `self` up to `hi`.
    pub fn width_to(&self, hi: &Value) -> (w: i128)
        requires
            comparable(*self, *hi),
        ensures
            w as int == spec_width(*self, *hi),
    {
        match (self, hi) {
            (Value::Str(a), Value::Str(b)) => {
                match text_compare(a, b) {
                    core::cmp::Ordering::Equal => 0,
                    _ => 1,
                }
            },
            _ => {
                assert(!is_text(*self));
                let lo = self.numeric();
                let hn = hi.numeric();
                hn - lo
            },
        }
    }
}

impl Clone for Value {
    /// A clone is the same value.
    fn clone(&self) -> (r: Self)
        ensures
            r == *self,
    {
        match self {
            Value::Boolean(b) => Value::Boolean(*b),
            Value::Int(i) => Value::Int(*i),
            Value::Long(i) => Value::Long(*i),
            Value::Date(i) => Value::Date(*i),
            Value::Time(i) => Value::Time(*i),
            Value::Timestamp(i) => Value::Timestamp(*i),
            Value::TimestampTz(i) => Value::TimestampTz(*i),
            Value::Str(s) => Value::Str(s.clone()),
        }
    }
}

/// One named, possibly null component of a partition tuple.
#[derive(Debug)]
pub struct StructField {
    /// The partition field name.
    pub name: String,
    /// The value, absent when the source column was null.
    pub value: Option<Value>,
}

impl Clone for StructField {
    /// A clone is the same field.
    fn clone(&self) -> (r: Self)
        ensures
            r == *self,
    {
        StructField {
            name: self.name.clone(),
            value: match &self.value {
                Some(v) => Some(v.clone()),
                None => None,
            },
        }
    }
}

/// A partition tuple: an ordered list of named optional values,
/// indexable by field name.
#[derive(Debug)]
pub struct Struct {
    /// The components, in partition-spec order.
    pub fields: Vec<StructField>,
}

impl Clone for Struct {
    /// A clone holds the same fields.
    fn clone(&self) -> (r: Self)
        ensures
            r.fields@ == self.fields@,
    {
        let fields = self.fields.clone();
        proof {
            assert(fields@ =~= self.fields@);
        }
        Struct { fields }
    }
}

/// Whether the field at a given position carries `name`.
pub open spec fn field_named(name: Seq<char>) -> spec_fn(StructField) -> bool {
    |f: StructField| f.name@ == name
}

impl Struct {
    /// An empty partition tuple, for unpartitioned tables.
    pub fn empty() -> (r: Struct)
        ensures
            r.fields@.len() == 0,
    {
        Struct { fields: Vec::new() }
    }

    /// The index of the first field named `name`, if any.
    pub fn find(&self, name: &String) -> (r: Option<usize>)
        ensures
            match r {
                Some(i) => first_where(self.fields@, field_named(name@)) == i as int,
                None => first_where(self.fields@, field_named(name@)) == -1,
            },
    {
        let n = self.fields.len();
        let mut i: usize = 0;
        while i < n
            invariant
                i <= n,
                n == self.fields@.len(),
                forall|j: int| 0 <= j < i ==> !(field_named(name@)(self.fields@[j])),
            decreases n - i,
        {
            if self.fields[i].name == *name {
                proof {
                    lemma_first_where_determined(self.fields@, field_named(name@), i as int);
                }
                return Some(i);
            }
            assert(self.fields@[i as int].name@ != name@);
            i = i + 1;
        }
        proof {
            lemma_first_where_determined(self.fields@, field_named(name@), n as int);
        }
        None
    }
}

/// The non-null value the tuple holds under `name`, if the field exists
/// and is non-null; looking at the first field of that name.
pub open spec fn struct_value(s: Struct, name: Seq<char>) -> Option<Value> {
    let i = first_where(s.fields@, field_named(name));
    if i == -1 {
        None
    } else {
        s.fields@[i].value
    }
}

/// Project a partition tuple onto the given column names, in order.
///
/// Fails with `NotFound` when a named field is absent or holds a null:
/// a bounding rectangle cannot be built over a missing coordinate.
pub fn partition_struct_to_vec(partition: &Struct, names: &Vec<String>) -> (r: Result<
    Vec<Value>,
    Error,
>)
    ensures
        r matches Ok(v) ==> {
            &&& v@.len() == names@.len()
            &&& forall|i: int|
                0 <= i < names@.len() ==> struct_value(*partition, names@[i]@) == Some(v@[i])
        },
        r is Err ==> exists|i: int|
            0 <= i < names@.len() && struct_value(*partition, names@[i]@) is None,
{
    let mut out: Vec<Value> = Vec::new();
    let n = names.len();
    let mut i: usize = 0;
    while i < n
        invariant
            i <= n,
            n == names@.len(),
            out@.len() == i as int,
            forall|j: int| 0 <= j < i ==> struct_value(*partition, names@[j]@) == Some(out@[j]),
        decreases n - i,
    {
        let idx = partition.find(&names[i]);
        proof {
            lemma_first_where_props(partition.fields@, field_named(names@[i as int]@));
        }
        match idx {
            Some(k) => {
                match &partition.fields[k].value {
                    Some(v) => {
                        out.push(v.clone());
                    },
                    None => {
                        return Err(
                            Error::NotFound("Partition value".to_owned(), "column".to_owned()),
                        );
                    },
                }
            },
            None => {
                return Err(Error::NotFound("Partition column".to_owned(), "name".to_owned()));
            },
        }
        i = i + 1;
    }
    Ok(out)
}

} // verus!
