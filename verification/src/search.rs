//! A spec-level notion of the first element of a sequence satisfying a
//! predicate, with the lemmas that connect it to a linear scan.

use vstd::prelude::*;

verus! {

/// Index of the first element of `s` satisfying `p`, or `-1` if none does.
pub open spec fn first_where<T>(s: Seq<T>, p: spec_fn(T) -> bool) -> int
    decreases s.len(),
{
    if s.len() == 0 {
        -1
    } else if p(s[0]) {
        0
    } else {
        let r = first_where(s.skip(1), p);
        if r < 0 {
            -1
        } else {
            1 + r
        }
    }
}

/// What `first_where` returns: either `-1` and nothing matches, or the
/// index of a match that nothing earlier matches.
pub proof fn lemma_first_where_props<T>(s: Seq<T>, p: spec_fn(T) -> bool)
    ensures
        first_where(s, p) == -1 ==> forall|j: int| 0 <= j < s.len() ==> !p(s[j]),
        first_where(s, p) != -1 ==> {
            let r = first_where(s, p);
            &&& 0 <= r < s.len()
            &&& p(s[r])
            &&& forall|j: int| 0 <= j < r ==> !p(s[j])
        },
    decreases s.len(),
{
    if s.len() != 0 && !p(s[0]) {
        lemma_first_where_props(s.skip(1), p);
        assert forall|j: int| 0 <= j < s.len() && first_where(s, p) == -1 implies !p(s[j]) by {
            if j > 0 {
                assert(s.skip(1)[j - 1] == s[j]);
            }
        }
        if first_where(s, p) != -1 {
            let r = first_where(s, p);
            assert(s.skip(1)[r - 1] == s[r]);
            assert forall|j: int| 0 <= j < r implies !p(s[j]) by {
                if j > 0 {
                    assert(s.skip(1)[j - 1] == s[j]);
                }
            }
        }
    }
}

/// A scan that saw no match up to `i`, and a match at `i` (or ran off the
/// end), determines `first_where`.
pub proof fn lemma_first_where_determined<T>(s: Seq<T>, p: spec_fn(T) -> bool, i: int)
    requires
        0 <= i <= s.len(),
        forall|j: int| 0 <= j < i ==> !p(s[j]),
        i == s.len() || p(s[i]),
    ensures
        first_where(s, p) == if i == s.len() {
            -1int
        } else {
            i
        },
    decreases i,
{
    if s.len() == 0 {
    } else if i == 0 {
        if !p(s[0]) {
            lemma_first_where_props(s, p);
            lemma_first_where_determined(s.skip(1), p, 0);
        }
    } else {
        assert(!p(s[0]));
        assert forall|j: int| 0 <= j < i - 1 implies !p(s.skip(1)[j]) by {
            assert(s.skip(1)[j] == s[j + 1]);
        }
        if i < s.len() {
            assert(s.skip(1)[i - 1] == s[i]);
        }
        lemma_first_where_determined(s.skip(1), p, i - 1);
    }
}

} // verus!
