use theodb_am::page::{
    blob_from_chunks, blob_page_items, decode_pending_item, encode_pending, item_fits, npages_for,
    pending_append_target, pending_block_range, plan_blob_read,
};

#[test]
fn npages_for_counts_chunks_with_a_floor_of_one() {
    assert_eq!(npages_for(0), 1);
    assert_eq!(npages_for(1), 1);
    assert_eq!(npages_for(8000), 1);
    assert_eq!(npages_for(8001), 2);
    assert_eq!(npages_for(24000), 3);
}

#[test]
fn blob_writes_and_reads_back() {
    let blob: Vec<u8> = (0..17000u32).map(|i| (i % 253) as u8).collect();
    let items = blob_page_items(&blob);
    assert_eq!(items.len(), 4);
    let bm = plan_blob_read(&items[0], items.len() as u32).expect("meta");
    assert_eq!(bm.blob_len, 17000);
    assert_eq!(bm.nchunks, 3);
    let chunks: Vec<Vec<u8>> = items[1..].to_vec();
    assert_eq!(blob_from_chunks(&chunks, bm.blob_len).expect("blob"), blob);
}

#[test]
fn empty_blob_has_one_empty_page() {
    let items = blob_page_items(&[]);
    assert_eq!(items.len(), 2);
    assert!(items[1].is_empty());
    let bm = plan_blob_read(&items[0], 2).expect("meta");
    assert_eq!((bm.blob_len, bm.nchunks), (0, 1));
}

#[test]
fn blob_read_errors() {
    assert_eq!(plan_blob_read(&[0u8; 5], 3).err().unwrap(), "theodb am: truncated meta page");
    let mut m = blob_page_items(&[1, 2, 3]).remove(0);
    assert_eq!(plan_blob_read(&m, 1).err().unwrap(), "theodb am: missing data page");
    m[0] = 0;
    assert_eq!(plan_blob_read(&m, 5).err().unwrap(), "theodb am: bad meta page magic");
    assert_eq!(
        blob_from_chunks(&vec![vec![1, 2]], 3).err().unwrap(),
        "theodb am: blob length mismatch (corrupt index)"
    );
}

#[test]
fn pending_item_roundtrips() {
    let v: Vec<u8> = [0.5f32, -2.0, 3.25].iter().flat_map(|x| x.to_le_bytes()).collect();
    let item = encode_pending(-77, &v);
    assert_eq!(item.len(), 12 + 12);
    assert_eq!(u32::from_le_bytes(item[8..12].try_into().unwrap()), 3);
    let (tid, back) = decode_pending_item(&item).expect("decode");
    assert_eq!(tid, -77);
    assert_eq!(back, v);
}

#[test]
fn pending_item_errors() {
    assert_eq!(
        decode_pending_item(&[0u8; 11]).err().unwrap(),
        "theodb am: corrupt pending item (too short for header)"
    );
    let mut item = encode_pending(1, &[0u8; 8]);
    item.truncate(15);
    assert_eq!(decode_pending_item(&item).err().unwrap(), "theodb am: corrupt pending item (truncated vector)");
}

#[test]
fn pending_region_placement() {
    assert_eq!(pending_append_target(0, 10).err().unwrap(), "theodb am: aminsert before build");
    assert_eq!(pending_append_target(5, 8).unwrap(), Some(7));
    assert_eq!(pending_append_target(5, 5).unwrap(), None);
    assert_eq!(pending_block_range(5, 9), (5, 9));
    let (lo, hi) = pending_block_range(5, 5);
    assert_eq!(lo, hi);
    let (lo, hi) = pending_block_range(0, 9);
    assert_eq!(lo, hi);
    assert!(item_fits(100, 92));
    assert!(!item_fits(100, 93));
    assert!(!item_fits(3, 10));
}
