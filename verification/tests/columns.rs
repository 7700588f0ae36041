use theodb_am::columns::{arrow_supported_group_type, cells_to_array, fixed_raw_array, ColumnValues};

fn cells_of<const W: usize>(vals: &[[u8; W]]) -> Vec<Option<Vec<u8>>> {
    vals.iter().map(|b| Some(b.to_vec())).collect()
}

fn contiguous<const W: usize>(vals: &[[u8; W]]) -> Vec<u8> {
    vals.iter().flat_map(|b| b.iter().copied()).collect()
}

fn check<const W: usize>(typid: u32, w: usize, arr: &[[u8; W]]) {
    let f = fixed_raw_array(typid, &contiguous(arr), w, arr.len()).unwrap();
    let c = cells_to_array(typid, &cells_of(arr)).unwrap();
    assert_eq!(f, c, "column mismatch for typid {}", typid);
}

#[test]
fn fixed_raw_matches_cells_across_fast_types() {
    let i32v = [1i32.to_le_bytes(), (-2i32).to_le_bytes(), 1_000_000i32.to_le_bytes()];
    let i64v = [0i64.to_le_bytes(), i64::MIN.to_le_bytes(), 42i64.to_le_bytes()];
    let f64v = [1.5f64.to_le_bytes(), (-0.0f64).to_le_bytes(), 3.25f64.to_le_bytes()];
    let i16v = [7i16.to_le_bytes(), (-1i16).to_le_bytes(), 30000i16.to_le_bytes()];
    let datev = [100i32.to_le_bytes(), 0i32.to_le_bytes(), 20000i32.to_le_bytes()];
    let tsv = [123i64.to_le_bytes(), (-456i64).to_le_bytes(), 999_999_999i64.to_le_bytes()];
    check(23, 4, &i32v);
    check(20, 8, &i64v);
    check(701, 8, &f64v);
    check(21, 2, &i16v);
    check(1082, 4, &datev);
    check(1114, 8, &tsv);
}

#[test]
fn fixed_raw_rejects_wrong_size() {
    assert!(fixed_raw_array(23, &[0u8; 5], 4, 1).is_err());
}

#[test]
fn fixed_raw_values_are_the_stored_integers() {
    let bytes: Vec<u8> = [5i32, -9].iter().flat_map(|x| x.to_le_bytes()).collect();
    assert_eq!(fixed_raw_array(23, &bytes, 4, 2).unwrap(), ColumnValues::Int32(vec![Some(5), Some(-9)]));
    let f: Vec<u8> = 2.5f32.to_le_bytes().to_vec();
    assert_eq!(fixed_raw_array(700, &f, 4, 1).unwrap(), ColumnValues::Float32(vec![Some(2.5f32.to_bits())]));
    assert!(fixed_raw_array(16, &[1u8], 1, 1).unwrap_err().contains("unexpected typid 16"));
}

#[test]
fn cells_keep_nulls_and_decode_bool_and_text() {
    let ints = vec![Some(3i64.to_le_bytes().to_vec()), None];
    assert_eq!(cells_to_array(20, &ints).unwrap(), ColumnValues::Int64(vec![Some(3), None]));
    let bools = vec![Some(vec![1u8]), Some(vec![0u8]), Some(vec![]), None];
    assert_eq!(cells_to_array(16, &bools).unwrap(), ColumnValues::Boolean(vec![Some(true), Some(false), Some(false), None]));
    let text = vec![Some(b"abc".to_vec()), None];
    assert_eq!(cells_to_array(25, &text).unwrap(), ColumnValues::Utf8(vec![Some("abc".to_string()), None]));
    assert!(cells_to_array(1700, &[None]).unwrap_err().contains("unsupported column type oid 1700"));
}

#[test]
fn group_keys_exclude_bpchar() {
    assert!(arrow_supported_group_type(25));
    assert!(arrow_supported_group_type(1043));
    assert!(!arrow_supported_group_type(1042));
    assert!(!arrow_supported_group_type(1700));
}

#[test]
fn invalid_utf8_text_is_decoded_lossily() {
    let cells = vec![Some(vec![0xff, b'a']), Some("\u{e9}".as_bytes().to_vec())];
    assert_eq!(
        cells_to_array(1043, &cells).unwrap(),
        ColumnValues::Utf8(vec![Some("\u{FFFD}a".to_string()), Some("\u{e9}".to_string())])
    );
}
