use std::cmp::Ordering;
use theodb_am::groups::cmp_group_key;

#[test]
fn group_keys_ascend_with_nulls_last() {
    assert_eq!(cmp_group_key(Some(1), Some(2)), Ordering::Less);
    assert_eq!(cmp_group_key(Some(-5), Some(-5)), Ordering::Equal);
    assert_eq!(cmp_group_key(Some(9), Some(2)), Ordering::Greater);
    assert_eq!(cmp_group_key(None, Some(i64::MIN)), Ordering::Greater);
    assert_eq!(cmp_group_key(Some(i64::MAX), None), Ordering::Less);
    assert_eq!(cmp_group_key(None, None), Ordering::Equal);
    let mut keys = vec![Some(3), None, Some(-1), Some(3), None, Some(0)];
    keys.sort_by(|a, b| cmp_group_key(*a, *b));
    assert_eq!(keys, vec![Some(-1), Some(0), Some(3), Some(3), None, None]);
}
