//! The `&&` (overlap) predicate on `smallint[]` label sets that backs the label opclass. A label
//! array is a sequence of optional values: SQL NULL elements match nothing.
use std::collections::HashSet;
use vstd::prelude::*;

verus! {

broadcast use vstd::std_specs::hash::group_hash_axioms;

/// `x` is a (non-NULL) element of the label array `s`.
pub open spec fn has_label(s: Seq<Option<i16>>, x: i16) -> bool {
    exists|i: int| 0 <= i < s.len() && s[i] == Some(x)
}

/// The two label arrays share at least one non-NULL element.
pub open spec fn labels_overlap(l: Seq<Option<i16>>, r: Seq<Option<i16>>) -> bool {
    exists|x: i16| has_label(l, x) && has_label(r, x)
}

/// Whether two label arrays share an element. Empty arrays never overlap; small arrays are
/// compared pairwise, larger ones through a hash set of the left labels.
pub fn theodb_smallint_array_overlap(left: &[Option<i16>], right: &[Option<i16>]) -> (r: bool)
    ensures
        r == labels_overlap(left@, right@),
{
    if left.len() == 0 || right.len() == 0 {
        return false;
    }
    if left.len() <= 8 && right.len() <= 8 {
        let mut i: usize = 0;
        while i < left.len()
            invariant
                i <= left@.len(),
                forall|a: int| 0 <= a < i ==> (#[trigger] left@[a] matches Some(x) ==> !has_label(right@, x)),
            decreases left@.len() - i,
        {
            if let Some(a) = left[i] {
                let mut j: usize = 0;
                while j < right.len()
                    invariant
                        j <= right@.len(),
                        i < left@.len(),
                        left@[i as int] == Some(a),
                        forall|b: int| 0 <= b < j ==> right@[b] != Some(a),
                    decreases right@.len() - j,
                {
                    if let Some(b) = right[j] {
                        if a == b {
                            assert(left@[i as int] == Some(a));
                            assert(right@[j as int] == Some(a));
                            assert(has_label(left@, a));
                            assert(has_label(right@, a));
                            return true;
                        }
                    }
                    j = j + 1;
                }
            }
            i = i + 1;
        }
        proof {
            assert forall|x: i16| has_label(left@, x) implies !has_label(right@, x) by {
                let a = choose|a: int| 0 <= a < left@.len() && left@[a] == Some(x);
                assert(left@[a] matches Some(y) ==> !has_label(right@, y));
            }
        }
        return false;
    }
    let mut set: HashSet<i16> = HashSet::new();
    let mut i: usize = 0;
    while i < left.len()
        invariant
            i <= left@.len(),
            forall|x: i16| set@.contains(x) <==> exists|a: int| 0 <= a < i && left@[a] == Some(x),
        decreases left@.len() - i,
    {
        if let Some(a) = left[i] {
            set.insert(a);
            proof {
                assert forall|x: i16| set@.contains(x) <==> exists|k: int| 0 <= k < i + 1 && left@[k] == Some(x) by {
                    if set@.contains(x) && x != a {
                        let k = choose|k: int| 0 <= k < i && left@[k] == Some(x);
                        assert(0 <= k < i + 1 && left@[k] == Some(x));
                    }
                    if x == a {
                        assert(left@[i as int] == Some(x));
                    }
                }
            }
        } else {
            proof {
                assert forall|x: i16| set@.contains(x) <==> exists|k: int| 0 <= k < i + 1 && left@[k] == Some(x) by {
                    if exists|k: int| 0 <= k < i + 1 && left@[k] == Some(x) {
                        let k = choose|k: int| 0 <= k < i + 1 && left@[k] == Some(x);
                        assert(k != i);
                    }
                }
            }
        }
        i = i + 1;
    }
    assert(forall|x: i16| set@.contains(x) <==> has_label(left@, x));
    let mut j: usize = 0;
    while j < right.len()
        invariant
            j <= right@.len(),
            forall|x: i16| set@.contains(x) <==> has_label(left@, x),
            forall|b: int| 0 <= b < j ==> (#[trigger] right@[b] matches Some(x) ==> !has_label(left@, x)),
        decreases right@.len() - j,
    {
        if let Some(b) = right[j] {
            if set.contains(&b) {
                assert(has_label(right@, b));
                return true;
            }
        }
        j = j + 1;
    }
    proof {
        assert forall|x: i16| has_label(right@, x) implies !has_label(left@, x) by {
            let b = choose|b: int| 0 <= b < right@.len() && right@[b] == Some(x);
            assert(right@[b] matches Some(y) ==> !has_label(left@, y));
        }
    }
    false
}

/// Overlap is symmetric, and an array without labels overlaps nothing.
pub proof fn lemma_overlap_symmetric(l: Seq<Option<i16>>, r: Seq<Option<i16>>)
    ensures
        labels_overlap(l, r) == labels_overlap(r, l),
        l.len() == 0 ==> !labels_overlap(l, r),
{
}

} // verus!
