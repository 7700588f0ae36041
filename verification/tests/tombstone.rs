use theodb_am::codec::{decode_element, mark_tombstone_in_place};
use theodb_am::layout::{ELEM_HEADER, ELEM_TAG, E_DIM, E_LEVEL, E_NBR_BLK, E_NBR_OFF, E_TAG, E_TID, E_VEC};

/// A minimal live element tuple: ELEM_TAG, pad(deleted/version)=0, dim=2, zero vector, no SBQ code.
fn live_tuple() -> Vec<u8> {
    let dim = 2usize;
    let mut b = vec![0u8; ELEM_HEADER + dim * 4];
    b[E_TAG] = ELEM_TAG;
    b[E_DIM..E_DIM + 2].copy_from_slice(&(dim as u16).to_le_bytes());
    b
}

fn tagged_tuple() -> Vec<u8> {
    let dim = 2usize;
    let mut b = vec![0u8; ELEM_HEADER + dim * 4];
    b[E_TAG] = ELEM_TAG;
    b[E_LEVEL] = 3;
    b[E_TID..E_TID + 8].copy_from_slice(&42i64.to_le_bytes());
    b[E_NBR_BLK..E_NBR_BLK + 4].copy_from_slice(&7u32.to_le_bytes());
    b[E_NBR_OFF..E_NBR_OFF + 2].copy_from_slice(&9u16.to_le_bytes());
    b[E_DIM..E_DIM + 2].copy_from_slice(&(dim as u16).to_le_bytes());
    b[E_VEC..E_VEC + 4].copy_from_slice(&1.5f32.to_le_bytes());
    b
}

#[test]
fn hnsw_page_fresh_tuple_decodes_as_live() {
    let b = live_tuple();
    let ev = decode_element(&b).expect("decode");
    assert!(!ev.deleted, "a fresh tuple (pad=0) decodes as live");
    assert_eq!(ev.version, 0, "fresh version is 0");
}

#[test]
fn hnsw_page_mark_tombstone_flips_deleted_and_bumps_version_idempotently() {
    let mut b = live_tuple();
    assert!(mark_tombstone_in_place(&mut b), "marking a live tuple returns true");
    let ev = decode_element(&b).expect("decode");
    assert!(ev.deleted, "marked tuple decodes as deleted");
    assert_eq!(ev.version, 1, "version bumped to 1 on first delete");
    assert!(!mark_tombstone_in_place(&mut b), "re-marking a tombstone returns false");
    assert_eq!(decode_element(&b).unwrap().version, 1, "version stays 1 (no double-bump)");
}

#[test]
fn hnsw_page_tombstone_preserves_tid_nbr_and_vec_bytes() {
    let mut b = tagged_tuple();
    mark_tombstone_in_place(&mut b);
    let ev = decode_element(&b).expect("decode");
    assert_eq!((ev.tid, ev.level, ev.nbr_addr), (42, 3, (7, 9)), "tid/level/neighbor intact");
    assert_eq!(f32::from_le_bytes(ev.vec_bytes[0..4].try_into().unwrap()), 1.5, "vector intact (navigation needs it)");
    assert!(ev.deleted);
}

#[test]
fn tests_fresh_tuple_decodes_as_live() {
    let b = live_tuple();
    let ev = decode_element(&b).expect("decode");
    assert!(!ev.deleted, "a fresh tuple (pad=0) decodes as live");
    assert_eq!(ev.version, 0, "fresh version is 0");
}

#[test]
fn tests_mark_tombstone_flips_deleted_and_bumps_version_idempotently() {
    let mut b = live_tuple();
    assert!(mark_tombstone_in_place(&mut b), "marking a live tuple returns true");
    let ev = decode_element(&b).expect("decode");
    assert!(ev.deleted, "marked tuple decodes as deleted");
    assert_eq!(ev.version, 1, "version bumped to 1 on first delete");
    assert!(!mark_tombstone_in_place(&mut b), "re-marking a tombstone returns false");
    assert_eq!(decode_element(&b).unwrap().version, 1, "version stays 1 (no double-bump)");
}

#[test]
fn tests_tombstone_preserves_tid_nbr_and_vec_bytes() {
    let mut b = tagged_tuple();
    mark_tombstone_in_place(&mut b);
    let ev = decode_element(&b).expect("decode");
    assert_eq!((ev.tid, ev.level, ev.nbr_addr), (42, 3, (7, 9)), "tid/level/neighbor intact");
    assert_eq!(
        f32::from_le_bytes(ev.vec_bytes[0..4].try_into().unwrap()),
        1.5,
        "vector intact (navigation needs it)"
    );
    assert!(ev.deleted);
}

#[test]
fn tombstone_refuses_a_non_element_and_a_short_tuple() {
    let mut short = vec![ELEM_TAG; 5];
    assert!(!mark_tombstone_in_place(&mut short));
    assert_eq!(short, vec![ELEM_TAG; 5]);
    let mut wrong = live_tuple();
    wrong[E_TAG] = 2;
    let before = wrong.clone();
    assert!(!mark_tombstone_in_place(&mut wrong));
    assert_eq!(wrong, before);
}

#[test]
fn decode_element_reports_each_error() {
    assert_eq!(decode_element(&[1u8; 4]).err().unwrap(), "theodb hnsw: bad element tuple");
    let mut b = live_tuple();
    b[E_TAG] = 9;
    assert_eq!(decode_element(&b).err().unwrap(), "theodb hnsw: bad element tuple");
    let mut t = live_tuple();
    t[E_DIM..E_DIM + 2].copy_from_slice(&5u16.to_le_bytes());
    assert_eq!(decode_element(&t).err().unwrap(), "theodb hnsw: truncated element tuple");
}
