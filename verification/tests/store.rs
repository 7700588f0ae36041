use theodb_am::codec::{decode_element, decode_neighbors, mark_tombstone_in_place};
use theodb_am::layout::{ELEM_HEADER, ELEM_TAG, E_DIM, E_LEVEL, E_TAG, E_TID, NBR_TAG};
use theodb_am::store::{
    assemble_codebook, backward_link, check_codebook_range, count_churned, count_tombstones, enumerate_entries,
    find_reusable_slot, raw_entry_vector, set_ground_neighbors_inplace, sweep_candidate, sweep_candidates, sweep_page,
    write_reused_element,
};
use theodb_am::codec::encode_raw_vec;

fn element(tid: i64, level: u8, dim: u16, fill: u8) -> Vec<u8> {
    let mut b = vec![fill; ELEM_HEADER + dim as usize * 4];
    b[E_TAG] = ELEM_TAG;
    b[E_LEVEL] = level;
    b[2] = 0;
    b[3] = 0;
    b[E_TID..E_TID + 8].copy_from_slice(&tid.to_le_bytes());
    b[12..18].copy_from_slice(&[0u8; 6]);
    b[E_DIM..E_DIM + 2].copy_from_slice(&dim.to_le_bytes());
    b
}

#[test]
fn sweep_skips_tombstones_and_foreign_items() {
    let mut e = element(5, 0, 2, 0);
    assert_eq!(sweep_candidate(&e), Some(5));
    mark_tombstone_in_place(&mut e);
    assert_eq!(sweep_candidate(&e), None);
    assert_eq!(sweep_candidate(&[NBR_TAG, 0, 0, 0]), None);
}

#[test]
fn tombstone_and_churn_counts() {
    let mut a = element(1, 0, 2, 0);
    let b = element(2, 0, 2, 0);
    let mut c = element(3, 0, 2, 0);
    mark_tombstone_in_place(&mut a);
    mark_tombstone_in_place(&mut c);
    let pages = vec![vec![a.clone(), b.clone()], vec![c.clone(), vec![NBR_TAG, 0, 0, 0]]];
    assert_eq!(count_tombstones(&pages), 2);
    // revive one tombstone: no longer deleted, still churned (version above 0)
    let mut r = c.clone();
    assert!(write_reused_element(&mut r, 9, &[0u8; 8]));
    let pages2 = vec![vec![a, b], vec![r]];
    assert_eq!(count_tombstones(&pages2), 1);
    assert_eq!(count_churned(&pages2), 2);
}

#[test]
fn reuse_finds_the_first_tombstone_of_the_level_but_never_the_entry() {
    let mut t1 = element(1, 1, 2, 0);
    let mut t2 = element(2, 1, 2, 0);
    let live = element(3, 1, 2, 0);
    mark_tombstone_in_place(&mut t1);
    mark_tombstone_in_place(&mut t2);
    let items = vec![((1u32, 1u16), live), ((1, 2), t1), ((1, 3), t2)];
    assert_eq!(find_reusable_slot((9, 9), &items, 1), Some((1, 2)));
    assert_eq!(find_reusable_slot((1, 2), &items, 1), Some((1, 3)));
    assert_eq!(find_reusable_slot((9, 9), &items, 0), None);
}

#[test]
fn revived_element_holds_the_new_row() {
    let mut e = element(1, 2, 2, 0);
    mark_tombstone_in_place(&mut e);
    let v: Vec<u8> = [1.0f32, 2.0].iter().flat_map(|x| x.to_le_bytes()).collect();
    assert!(write_reused_element(&mut e, 77, &v));
    let d = decode_element(&e).expect("decode");
    assert_eq!(d.tid, 77);
    assert!(!d.deleted);
    assert_eq!(d.level, 2);
    assert_eq!(d.vec_bytes, v.as_slice());
    // a live element and a wrong-size vector are refused
    let mut live = element(4, 0, 2, 0);
    let before = live.clone();
    assert!(!write_reused_element(&mut live, 5, &v));
    assert_eq!(live, before);
    let mut t = element(6, 0, 2, 0);
    mark_tombstone_in_place(&mut t);
    assert!(!write_reused_element(&mut t, 5, &[0u8; 4]));
}

#[test]
fn ground_links_rewrite_and_backlink() {
    // level 0, m=2, m0=3: header + 3 slots
    let mut nt = vec![0u8; 4 + 3 * 6];
    nt[0] = NBR_TAG;
    assert!(set_ground_neighbors_inplace(&mut nt, 0, 2, 3, &[(5, 1), (6, 2)]));
    assert_eq!(decode_neighbors(&nt, 0, 0, 2, 3).expect("ground"), vec![(5, 1), (6, 2)]);
    let mut bad = vec![9u8; 10];
    assert!(!set_ground_neighbors_inplace(&mut bad, 0, 2, 3, &[(5, 1)]));
    assert_eq!(bad, vec![9u8; 10]);
    assert_eq!(backward_link(&vec![(1, 1)], (2, 2), 2), Some(vec![(1, 1), (2, 2)]));
    assert_eq!(backward_link(&vec![(1, 1), (2, 2)], (3, 3), 2), None);
    assert_eq!(backward_link(&vec![(1, 1)], (1, 1), 4), None);
}

#[test]
fn live_entries_drop_tombstones() {
    let a = element(1, 0, 1, 0);
    let mut b = element(2, 0, 1, 0);
    mark_tombstone_in_place(&mut b);
    let c = element(3, 0, 1, 0);
    let got = enumerate_entries(&vec![a, b, c], false).expect("entries");
    let tids: Vec<i64> = got.iter().map(|e| e.tid).collect();
    assert_eq!(tids, vec![1, 3]);
    assert!(enumerate_entries(&vec![vec![NBR_TAG; 30]], false).is_err());
}

#[test]
fn raw_vectors_and_codebook_pages() {
    let v = vec![1u8, 2, 3, 4, 5, 6, 7, 8];
    let raw = encode_raw_vec(&v);
    assert_eq!(raw_entry_vector(&raw, 2).expect("raw"), v);
    assert!(raw_entry_vector(&raw, 3).err().unwrap().contains("hot tuple dim says 12"));
    assert!(check_codebook_range(5, 2, 7).is_ok());
    assert!(check_codebook_range(5, 3, 7).is_err());
    assert!(check_codebook_range(u32::MAX, 2, 7).is_err());
    let pages = vec![vec![vec![1u8, 2]], vec![vec![3u8]]];
    assert_eq!(assemble_codebook(&pages, 3).expect("cb"), vec![1, 2, 3]);
    assert!(assemble_codebook(&pages, 4).err().unwrap().contains("declared 4, read 3"));
}

#[test]
fn a_page_sweep_tombstones_only_dead_live_elements() {
    let mut already = element(1, 0, 1, 0);
    mark_tombstone_in_place(&mut already);
    let mut items = vec![element(10, 0, 1, 0), element(11, 0, 1, 0), already.clone(), vec![NBR_TAG, 0, 0, 0]];
    let cands = sweep_candidates(&items);
    assert_eq!(cands, vec![Some(10), Some(11), None, None]);
    let dead: Vec<bool> = cands.iter().map(|c| *c == Some(11) || c.is_none()).collect();
    let before = items.clone();
    assert_eq!(sweep_page(&mut items, &dead), 1);
    assert_eq!(items[0], before[0]);
    assert!(decode_element(&items[1]).unwrap().deleted);
    assert_eq!(items[2], already);
    assert_eq!(items[3], before[3]);
}
