use theodb_am::labels::theodb_smallint_array_overlap;

#[test]
fn small_arrays_overlap_pairwise() {
    assert!(theodb_smallint_array_overlap(&[Some(1), Some(2)], &[Some(2), Some(9)]));
    assert!(!theodb_smallint_array_overlap(&[Some(1), Some(2)], &[Some(3)]));
}

#[test]
fn empty_arrays_never_overlap() {
    assert!(!theodb_smallint_array_overlap(&[], &[Some(1)]));
    assert!(!theodb_smallint_array_overlap(&[Some(1)], &[]));
}

#[test]
fn nulls_match_nothing() {
    assert!(!theodb_smallint_array_overlap(&[None], &[None]));
    assert!(theodb_smallint_array_overlap(&[None, Some(5)], &[Some(5), None]));
}

#[test]
fn large_arrays_overlap_through_the_set() {
    let left: Vec<Option<i16>> = (0..20).map(|i| Some(i * 2)).collect();
    let right_hit: Vec<Option<i16>> = (0..20).map(|i| Some(i * 2 + 1)).chain([Some(38)]).collect();
    let right_miss: Vec<Option<i16>> = (0..20).map(|i| Some(i * 2 + 1)).collect();
    assert!(theodb_smallint_array_overlap(&left, &right_hit));
    assert!(!theodb_smallint_array_overlap(&left, &right_miss));
    // symmetric
    assert!(theodb_smallint_array_overlap(&right_hit, &left));
}
