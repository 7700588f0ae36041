//! The order of group keys in a grouped aggregate's result: ascending, NULLs last. Integer-like
//! keys (int2/int4/int8, date, timestamp, bool) are carried widened to `i64`, which keeps their
//! order.
use std::cmp::Ordering;
use vstd::prelude::*;

verus! {

/// The position of `a` relative to `b`: -1 before, 0 level, 1 after.
pub open spec fn group_key_rank(a: Option<i64>, b: Option<i64>) -> int {
    match (a, b) {
        (None, None) => 0,
        (None, Some(_)) => 1,
        (Some(_), None) => -1,
        (Some(x), Some(y)) => if x < y { -1 } else if x == y { 0 } else { 1 },
    }
}

/// Compare two group keys (`None` for SQL NULL): ascending, NULLs after every value.
pub fn cmp_group_key(a: Option<i64>, b: Option<i64>) -> (r: Ordering)
    ensures
        group_key_rank(a, b) == -1 ==> r == Ordering::Less,
        group_key_rank(a, b) == 0 ==> r == Ordering::Equal,
        group_key_rank(a, b) == 1 ==> r == Ordering::Greater,
{
    match (a, b) {
        (None, None) => Ordering::Equal,
        (None, Some(_)) => Ordering::Greater,
        (Some(_), None) => Ordering::Less,
        (Some(x), Some(y)) => {
            if x < y {
                Ordering::Less
            } else if x == y {
                Ordering::Equal
            } else {
                Ordering::Greater
            }
        },
    }
}

/// The group-key order is a total order: swapping the keys reverses the comparison, it is
/// transitive, and only equal keys are level.
pub proof fn lemma_group_key_order(a: Option<i64>, b: Option<i64>, c: Option<i64>)
    ensures
        group_key_rank(a, b) == -group_key_rank(b, a),
        group_key_rank(a, b) <= 0 && group_key_rank(b, c) <= 0 ==> group_key_rank(a, c) <= 0,
        group_key_rank(a, b) == 0 <==> a == b,
{
}

} // verus!
