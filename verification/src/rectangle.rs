//! The n-dimensional bounding rectangle over partition tuples: expansion
//! by points and by other rectangles, and the priority-ordered width
//! comparison used to pick the snuggest manifest.

use vstd::prelude::*;

use crate::error::Error;
use crate::values::{
    comparable, spec_width, val_le, val_lt, val_max, val_min, lemma_val_asym, lemma_val_le_trans,
    lemma_val_lt_le_trans, lemma_val_total, Value,
};

verus! {

/// Componentwise well-formed bounds: equal lengths, and in every
/// dimension a comparable pair with the lower bound not above the upper.
pub open spec fn bounds_wf(min: Seq<Value>, max: Seq<Value>) -> bool {
    &&& min.len() == max.len()
    &&& forall|d: int|
        0 <= d < min.len() ==> comparable(#[trigger] min[d], #[trigger] max[d]) && val_le(
            min[d],
            max[d],
        )
}

/// An n-dimensional min/max bounding box over partition tuples, one
/// component per partition field, most significant dimension first.
#[derive(Debug)]
pub struct Rectangle {
    min: Vec<Value>,
    max: Vec<Value>,
}

/// The widths of a rectangle, dimension by dimension.
pub open spec fn widths_of(min: Seq<Value>, max: Seq<Value>) -> Seq<int> {
    Seq::new(min.len(), |d: int| spec_width(min[d], max[d]))
}

/// Lexicographic comparison of width vectors of equal length: the first
/// dimension whose widths differ decides, wider is greater.
pub open spec fn priority_cmp(wa: Seq<int>, wb: Seq<int>) -> core::cmp::Ordering
    recommends
        wa.len() == wb.len(),
    decreases wa.len(),
{
    if wa.len() == 0 || wb.len() == 0 {
        core::cmp::Ordering::Equal
    } else if wa[0] < wb[0] {
        core::cmp::Ordering::Less
    } else if wb[0] < wa[0] {
        core::cmp::Ordering::Greater
    } else {
        priority_cmp(wa.skip(1), wb.skip(1))
    }
}

/// Width vectors that agree strictly before `i` compare as position `i`
/// says: a differing width decides, all-equal means equal.
proof fn lemma_priority_cmp_at(wa: Seq<int>, wb: Seq<int>, i: int)
    requires
        wa.len() == wb.len(),
        0 <= i <= wa.len(),
        forall|j: int| 0 <= j < i ==> wa[j] == wb[j],
        i == wa.len() || wa[i] != wb[i],
    ensures
        priority_cmp(wa, wb) == if i == wa.len() {
            core::cmp::Ordering::Equal
        } else if wa[i] < wb[i] {
            core::cmp::Ordering::Less
        } else {
            core::cmp::Ordering::Greater
        },
    decreases i,
{
    if wa.len() != 0 && i != 0 {
        assert(wa[0] == wb[0]);
        let a1 = wa.skip(1);
        let b1 = wb.skip(1);
        assert forall|j: int| 0 <= j < i - 1 implies a1[j] == b1[j] by {
            assert(a1[j] == wa[j + 1]);
            assert(b1[j] == wb[j + 1]);
        }
        if i < wa.len() {
            assert(a1[i - 1] == wa[i]);
            assert(b1[i - 1] == wb[i]);
        }
        lemma_priority_cmp_at(a1, b1, i - 1);
    }
}

/// Swapping the sides of a priority comparison mirrors the outcome.
pub proof fn lemma_priority_cmp_flip(wa: Seq<int>, wb: Seq<int>)
    requires
        wa.len() == wb.len(),
    ensures
        priority_cmp(wa, wb) == core::cmp::Ordering::Less <==> priority_cmp(wb, wa)
            == core::cmp::Ordering::Greater,
        priority_cmp(wa, wb) == core::cmp::Ordering::Equal <==> priority_cmp(wb, wa)
            == core::cmp::Ordering::Equal,
    decreases wa.len(),
{
    if wa.len() != 0 && wa[0] == wb[0] {
        lemma_priority_cmp_flip(wa.skip(1), wb.skip(1));
    }
}

/// Whether `wa` is nowhere-wider than `wb` under priority comparison.
pub open spec fn width_le(wa: Seq<int>, wb: Seq<int>) -> bool {
    priority_cmp(wa, wb) != core::cmp::Ordering::Greater
}

/// The nowhere-wider relation is transitive.
pub proof fn lemma_width_le_trans(wa: Seq<int>, wb: Seq<int>, wc: Seq<int>)
    requires
        wa.len() == wb.len(),
        wb.len() == wc.len(),
        width_le(wa, wb),
        width_le(wb, wc),
    ensures
        width_le(wa, wc),
    decreases wa.len(),
{
    if wa.len() != 0 {
        if wa[0] == wb[0] && wb[0] == wc[0] {
            lemma_width_le_trans(wa.skip(1), wb.skip(1), wc.skip(1));
        }
    }
}

impl Rectangle {
    /// The lower bounds, one per dimension.
    pub closed spec fn mins(self) -> Seq<Value> {
        self.min@
    }

    /// The upper bounds, one per dimension.
    pub closed spec fn maxs(self) -> Seq<Value> {
        self.max@
    }

    /// The number of dimensions.
    pub open spec fn spec_dims(self) -> nat {
        self.mins().len()
    }

    /// The widths, one per dimension.
    pub open spec fn widths(self) -> Seq<int> {
        widths_of(self.mins(), self.maxs())
    }

    /// Every rectangle carries well-formed bounds; `use_type_invariant`
    /// recovers this of any rectangle held by executable code.
    #[verifier::type_invariant]
    pub open spec fn wf(self) -> bool {
        bounds_wf(self.mins(), self.maxs())
    }

    /// The number of dimensions.
    pub fn dims(&self) -> (n: usize)
        ensures
            n == self.spec_dims(),
    {
        self.min.len()
    }

    /// The lower bound of dimension `d`.
    pub fn min_at(&self, d: usize) -> (v: &Value)
        requires
            d < self.spec_dims(),
        ensures
            *v == self.mins()[d as int],
    {
        &self.min[d]
    }

    /// The upper bound of dimension `d`.
    pub fn max_at(&self, d: usize) -> (v: &Value)
        requires
            d < self.spec_dims(),
        ensures
            *v == self.maxs()[d as int],
    {
        proof {
            use_type_invariant(self);
        }
        &self.max[d]
    }

    /// The degenerate rectangle around a single tuple.
    pub fn degenerate(node: Vec<Value>) -> (r: Rectangle)
        ensures
            r.mins() == node@,
            r.maxs() == node@,
    {
        let copy = clone_values(&node);
        proof {
            assert(copy@ =~= node@);
        }
        Rectangle { min: copy, max: node }
    }

    /// A rectangle from explicit bounds; fails with `Type` when the
    /// bounds are not componentwise comparable with `min` below `max`,
    /// or differ in length.
    pub fn new(min: Vec<Value>, max: Vec<Value>) -> (r: Result<Rectangle, Error>)
        ensures
            r matches Ok(rect) ==> rect.mins() == min@ && rect.maxs() == max@,
            r is Ok <==> bounds_wf(min@, max@),
    {
        if min.len() != max.len() {
            return Err(Error::Type("bounds".to_owned(), "equal length".to_owned()));
        }
        let n = min.len();
        let mut d: usize = 0;
        while d < n
            invariant
                d <= n,
                n == min@.len(),
                n == max@.len(),
                forall|j: int|
                    0 <= j < d ==> comparable(#[trigger] min@[j], #[trigger] max@[j]) && val_le(
                        min@[j],
                        max@[j],
                    ),
            decreases n - d,
        {
            match min[d].compare(&max[d]) {
                Ok(o) => {
                    if matches!(o, core::cmp::Ordering::Greater) {
                        return Err(Error::Type("bounds".to_owned(), "ordered".to_owned()));
                    }
                },
                Err(e) => {
                    return Err(e);
                },
            }
            d = d + 1;
        }
        Ok(Rectangle { min, max })
    }

    /// Expand the rectangle to cover the tuple `node`: in every dimension
    /// the lower bound drops to `node` where `node` is smaller and the
    /// upper bound rises where it is larger.  Fails with `Type`, leaving
    /// the rectangle unchanged, when `node` has the wrong length or a
    /// component of the wrong type.
    pub fn expand_with_node(&mut self, node: &Vec<Value>) -> (r: Result<(), Error>)
        ensures
            r is Ok <==> old(self).spec_dims() == node@.len() && (forall|d: int|
                0 <= d < node@.len() ==> comparable(#[trigger] old(self).mins()[d], node@[d])),
            r is Ok ==> {
                &&& final(self).spec_dims() == old(self).spec_dims()
                &&& forall|d: int|
                    0 <= d < node@.len() ==> final(self).mins()[d] == val_min(
                        #[trigger] old(self).mins()[d],
                        node@[d],
                    )
                &&& forall|d: int|
                    0 <= d < node@.len() ==> final(self).maxs()[d] == val_max(
                        #[trigger] old(self).maxs()[d],
                        node@[d],
                    )
            },
            r is Err ==> *final(self) == *old(self),
    {
        proof {
            use_type_invariant(&*self);
        }
        if node.len() != self.min.len() {
            return Err(Error::Type("tuple".to_owned(), "dimension count".to_owned()));
        }
        let n = self.min.len();
        let mut new_min: Vec<Value> = Vec::new();
        let mut new_max: Vec<Value> = Vec::new();
        let mut d: usize = 0;
        while d < n
            invariant
                d <= n,
                n == self.min@.len(),
                n == self.max@.len(),
                n == node@.len(),
                bounds_wf(self.min@, self.max@),
                new_min@.len() == d as int,
                new_max@.len() == d as int,
                forall|j: int| 0 <= j < d ==> comparable(#[trigger] self.min@[j], node@[j]),
                forall|j: int|
                    0 <= j < d ==> new_min@[j] == val_min(#[trigger] self.min@[j], node@[j]),
                forall|j: int|
                    0 <= j < d ==> new_max@[j] == val_max(#[trigger] self.max@[j], node@[j]),
                forall|j: int|
                    0 <= j < d ==> comparable(#[trigger] new_min@[j], new_max@[j]) && val_le(
                        new_min@[j],
                        new_max@[j],
                    ),
            decreases n - d,
        {
            let lo = &self.min[d];
            let hi = &self.max[d];
            let p = &node[d];
            match lo.compare(p) {
                Ok(o) => {
                    proof {
                        lemma_val_total(self.max@[d as int], node@[d as int]);
                    }
                    if matches!(o, core::cmp::Ordering::Greater) {
                        // node is below the lower bound; it cannot also be
                        // above the upper bound.
                        new_min.push(p.clone());
                        new_max.push(hi.clone());
                        proof {
                            lemma_val_asym(node@[d as int], self.min@[d as int]);
                            lemma_val_lt_le_trans(
                                node@[d as int],
                                self.min@[d as int],
                                self.max@[d as int],
                            );
                            lemma_val_asym(node@[d as int], self.max@[d as int]);
                        }
                    } else {
                        new_min.push(lo.clone());
                        let grow = match hi.compare(p) {
                            Ok(oh) => matches!(oh, core::cmp::Ordering::Less),
                            Err(e) => {
                                return Err(e);
                            },
                        };
                        if grow {
                            new_max.push(p.clone());
                            proof {
                                lemma_val_le_trans(
                                    self.min@[d as int],
                                    self.max@[d as int],
                                    node@[d as int],
                                );
                            }
                        } else {
                            new_max.push(hi.clone());
                        }
                    }
                },
                Err(e) => {
                    return Err(e);
                },
            }
            d = d + 1;
        }
        *self = Rectangle { min: new_min, max: new_max };
        Ok(())
    }

    /// Expand the rectangle to cover `other`: a componentwise min/max
    /// merge.  Fails with `Type`, leaving the rectangle unchanged, when
    /// the two rectangles differ in length or in a component type.
    pub fn expand(&mut self, other: &Rectangle) -> (r: Result<(), Error>)
        ensures
            r is Ok <==> old(self).spec_dims() == other.spec_dims() && (forall|d: int|
                0 <= d < other.spec_dims() ==> comparable(
                    #[trigger] old(self).mins()[d],
                    other.mins()[d],
                )),
            r is Ok ==> {
                &&& final(self).spec_dims() == old(self).spec_dims()
                &&& forall|d: int|
                    0 <= d < other.spec_dims() ==> final(self).mins()[d] == val_min(
                        #[trigger] old(self).mins()[d],
                        other.mins()[d],
                    )
                &&& forall|d: int|
                    0 <= d < other.spec_dims() ==> final(self).maxs()[d] == val_max(
                        #[trigger] old(self).maxs()[d],
                        other.maxs()[d],
                    )
            },
            r is Err ==> *final(self) == *old(self),
    {
        proof {
            use_type_invariant(&*self);
            use_type_invariant(other);
        }
        if other.min.len() != self.min.len() {
            return Err(Error::Type("rectangle".to_owned(), "dimension count".to_owned()));
        }
        let n = self.min.len();
        let mut new_min: Vec<Value> = Vec::new();
        let mut new_max: Vec<Value> = Vec::new();
        let mut d: usize = 0;
        while d < n
            invariant
                d <= n,
                n == self.min@.len(),
                n == self.max@.len(),
                n == other.min@.len(),
                n == other.max@.len(),
                bounds_wf(self.min@, self.max@),
                bounds_wf(other.min@, other.max@),
                new_min@.len() == d as int,
                new_max@.len() == d as int,
                forall|j: int| 0 <= j < d ==> comparable(#[trigger] self.min@[j], other.min@[j]),
                forall|j: int|
                    0 <= j < d ==> new_min@[j] == val_min(#[trigger] self.min@[j], other.min@[j]),
                forall|j: int|
                    0 <= j < d ==> new_max@[j] == val_max(#[trigger] self.max@[j], other.max@[j]),
                forall|j: int|
                    0 <= j < d ==> comparable(#[trigger] new_min@[j], new_max@[j]) && val_le(
                        new_min@[j],
                        new_max@[j],
                    ),
            decreases n - d,
        {
            let a_lo = &self.min[d];
            let a_hi = &self.max[d];
            let b_lo = &other.min[d];
            let b_hi = &other.max[d];
            match a_lo.compare(b_lo) {
                Ok(o) => {
                    let lo_pick = if matches!(o, core::cmp::Ordering::Greater) {
                        b_lo
                    } else {
                        a_lo
                    };
                    new_min.push(lo_pick.clone());
                    let hi_grow = match a_hi.compare(b_hi) {
                        Ok(oh) => matches!(oh, core::cmp::Ordering::Less),
                        Err(e) => {
                            return Err(e);
                        },
                    };
                    let hi_pick = if hi_grow {
                        b_hi
                    } else {
                        a_hi
                    };
                    new_max.push(hi_pick.clone());
                    proof {
                        let al = self.min@[d as int];
                        let ah = self.max@[d as int];
                        let bl = other.min@[d as int];
                        let bh = other.max@[d as int];
                        if val_lt(bl, al) {
                            lemma_val_asym(bl, al);
                            if !val_lt(ah, bh) {
                                lemma_val_lt_le_trans(bl, al, ah);
                            }
                            // where both drop to other's bounds, other's
                            // own well-formedness orders them
                        } else {
                            if val_lt(ah, bh) {
                                lemma_val_le_trans(al, ah, bh);
                            }
                        }
                    }
                },
                Err(e) => {
                    return Err(e);
                },
            }
            d = d + 1;
        }
        *self = Rectangle { min: new_min, max: new_max };
        Ok(())
    }

    /// Compare two rectangles of equal dimension count along partition-
    /// field priority: the first dimension in which the widths differ
    /// decides, wider is greater; all-equal is `Equal`.  Fails with
    /// `Type` on rectangles of different dimension count.
    pub fn cmp_with_priority(&self, other: &Rectangle) -> (r: Result<core::cmp::Ordering, Error>)
        ensures
            r is Ok <==> self.spec_dims() == other.spec_dims(),
            r matches Ok(o) ==> o == priority_cmp(self.widths(), other.widths()),
    {
        proof {
            use_type_invariant(self);
            use_type_invariant(other);
        }
        if self.min.len() != other.min.len() {
            return Err(Error::Type("rectangle".to_owned(), "dimension count".to_owned()));
        }
        let n = self.min.len();
        let mut d: usize = 0;
        while d < n
            invariant
                d <= n,
                n == self.spec_dims(),
                n == other.spec_dims(),
                bounds_wf(self.mins(), self.maxs()),
                bounds_wf(other.mins(), other.maxs()),
                forall|j: int| 0 <= j < d ==> self.widths()[j] == other.widths()[j],
            decreases n - d,
        {
            let wa = self.min[d].width_to(&self.max[d]);
            let wb = other.min[d].width_to(&other.max[d]);
            if wa < wb {
                proof {
                    lemma_priority_cmp_at(self.widths(), other.widths(), d as int);
                }
                return Ok(core::cmp::Ordering::Less);
            }
            if wb < wa {
                proof {
                    lemma_priority_cmp_at(self.widths(), other.widths(), d as int);
                }
                return Ok(core::cmp::Ordering::Greater);
            }
            d = d + 1;
        }
        proof {
            lemma_priority_cmp_at(self.widths(), other.widths(), n as int);
        }
        Ok(core::cmp::Ordering::Equal)
    }
}

impl Clone for Rectangle {
    /// A clone carries the same bounds.
    fn clone(&self) -> (r: Self)
        ensures
            r.mins() == self.mins(),
            r.maxs() == self.maxs(),
    {
        proof {
            use_type_invariant(self);
        }
        Rectangle { min: clone_values(&self.min), max: clone_values(&self.max) }
    }
}

/// An exact copy of a tuple of values.
pub fn clone_values(v: &Vec<Value>) -> (r: Vec<Value>)
    ensures
        r@ == v@,
{
    let r = v.clone();
    proof {
        assert(r@ =~= v@);
    }
    r
}

} // verus!
