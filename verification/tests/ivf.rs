use theodb_am::ivf::{
    decode_centroids, decode_ivf_directory, decode_ivf_list, encode_list, ivf_pending_start, ivf_structured_items,
    main_index_plan, parse_ivf_header, peek_magic_of, read_ivf_header, structured_page_items, IvfHeaderError,
    MainIndexPages, IVF_STRUCT_MAGIC,
};
use theodb_am::meta::{encode_meta, HnswMeta};
use theodb_am::page::blob_page_items;

fn fbytes(v: &[f32]) -> Vec<u8> {
    v.iter().flat_map(|x| x.to_le_bytes()).collect()
}

fn sample() -> (Vec<Vec<u8>>, Vec<Vec<(i64, Vec<u8>)>>) {
    let centroids = vec![fbytes(&[0.0, 1.0]), fbytes(&[5.0, 5.0])];
    let lists = vec![
        vec![(1i64, fbytes(&[0.1, 0.9])), (2i64, fbytes(&[0.2, 1.1]))],
        vec![(3i64, fbytes(&[4.9, 5.2]))],
    ];
    (centroids, lists)
}

fn concat(items: &[Vec<u8>]) -> Vec<u8> {
    items.iter().flatten().copied().collect()
}

#[test]
fn structured_generation_reads_back() {
    let (centroids, lists) = sample();
    let items = structured_page_items(1, 2, 1, &centroids, &lists);
    // meta · 1 dir page · 1 centroid page · 1 page per list
    assert_eq!(items.len(), 5);
    let h = read_ivf_header(&items[0]).expect("header");
    assert_eq!((h.version, h.metric_tag, h.dim, h.nlists), (3, 1, 2, 2));
    assert_eq!((h.dir_npages, h.centroid_npages, h.gen_base), (1, 1, 1));
    let dbytes = concat(&items[1..2]);
    let dir = decode_ivf_directory(&h, &dbytes).expect("dir");
    assert_eq!(dir, vec![(3, 1, 2), (4, 1, 1)]);
    let cbytes = concat(&items[2..3]);
    let cs = decode_centroids(&cbytes, h.nlists, h.dim).expect("centroids");
    assert_eq!(cs, centroids);
    for (i, (first, np, count)) in dir.iter().enumerate() {
        let lo = (*first - h.gen_base + 1) as usize;
        let bytes = concat(&items[lo..lo + *np as usize]);
        let entries = decode_ivf_list(&bytes, *count, h.dim).expect("list");
        assert_eq!(entries, lists[i]);
    }
    assert_eq!(ivf_pending_start(&h, &dbytes).expect("pending"), 5);
}

#[test]
fn relocated_generation_points_past_its_base() {
    let (centroids, lists) = sample();
    let items = ivf_structured_items(40, 2, 0, &centroids, &lists);
    let h = parse_ivf_header(&items[0]).ok().expect("header");
    assert_eq!(h.gen_base, 40);
    let dbytes = concat(&items[1..2]);
    let dir = decode_ivf_directory(&h, &dbytes).expect("dir");
    assert_eq!(dir[0].0, 42);
    assert_eq!(ivf_pending_start(&h, &dbytes).expect("pending"), 40 + items.len() as u32 - 1);
}

#[test]
fn encode_list_is_tid_then_vector() {
    let l = vec![(7i64, vec![1u8, 2, 3, 4])];
    let b = encode_list(&l);
    assert_eq!(&b[0..8], &7i64.to_le_bytes());
    assert_eq!(&b[8..], &[1, 2, 3, 4]);
    assert!(encode_list(&[]).is_empty());
}

#[test]
fn header_errors() {
    assert!(matches!(parse_ivf_header(&[0u8; 10]), Err(IvfHeaderError::Truncated)));
    let (c, l) = sample();
    let mut m = structured_page_items(1, 2, 0, &c, &l).remove(0);
    let mut bad = m.clone();
    bad[0] = 0;
    assert!(matches!(parse_ivf_header(&bad), Err(IvfHeaderError::BadMagic)));
    assert_eq!(read_ivf_header(&bad).err().unwrap(), "theodb ivf: bad structured meta magic");
    let mut v1 = m.clone();
    v1[4..8].copy_from_slice(&1u32.to_le_bytes());
    assert!(matches!(parse_ivf_header(&v1), Err(IvfHeaderError::Unsupported(1))));
    assert!(read_ivf_header(&v1).err().unwrap().contains("unsupported structured format v1"));
    m.truncate(27);
    assert_eq!(read_ivf_header(&m).err().unwrap(), "theodb ivf: truncated v3 meta (missing gen_base)");
}

#[test]
fn v2_header_has_an_implicit_base() {
    let (c, l) = sample();
    let mut m = structured_page_items(1, 2, 0, &c, &l).remove(0);
    m[4..8].copy_from_slice(&2u32.to_le_bytes());
    m.truncate(25);
    let h = read_ivf_header(&m).expect("v2");
    assert_eq!((h.version, h.gen_base), (2, 1));
}

#[test]
fn region_decode_errors() {
    let (c, l) = sample();
    let items = structured_page_items(1, 2, 0, &c, &l);
    let h = read_ivf_header(&items[0]).expect("header");
    assert_eq!(decode_ivf_directory(&h, &[0u8; 10]).err().unwrap(), "theodb ivf: truncated list directory");
    assert_eq!(ivf_pending_start(&h, &[0u8; 10]).err().unwrap(), "theodb am: truncated directory");
    assert_eq!(decode_centroids(&[0u8; 4], 2, 2).err().unwrap(), "theodb ivf: truncated centroid region");
    assert!(decode_centroids(&[], 0, 2).expect("no lists").is_empty());
    assert_eq!(decode_centroids(&[0u8; 16], 2, 0).err().unwrap(), "theodb ivf: truncated centroid region");
    assert_eq!(decode_ivf_list(&[0u8; 10], 1, 2).err().unwrap(), "theodb ivf: truncated list page");
}

#[test]
fn pending_start_saturates() {
    let (c, l) = sample();
    let items = structured_page_items(u32::MAX - 4, 2, 0, &c, &[vec![], vec![]]);
    assert_eq!(l.len(), 2);
    let h = read_ivf_header(&items[0]).expect("header");
    let mut dbytes = concat(&items[1..2]);
    dbytes[4..8].copy_from_slice(&u32::MAX.to_le_bytes());
    assert_eq!(ivf_pending_start(&h, &dbytes).expect("pending"), u32::MAX);
}

#[test]
fn main_index_extent_by_layout() {
    assert_eq!(peek_magic_of(&[1, 2]), 0);
    assert_eq!(peek_magic_of(&IVF_STRUCT_MAGIC.to_le_bytes()), IVF_STRUCT_MAGIC);
    assert_eq!(main_index_plan(&[1, 2]).err().unwrap(), "theodb am: truncated meta page");
    let blob = blob_page_items(&vec![7u8; 9000]);
    match main_index_plan(&blob[0]).expect("blob") {
        MainIndexPages::Pages(n) => assert_eq!(n, 3),
        _ => panic!("blob meta is not a directory layout"),
    }
    assert_eq!(main_index_plan(&blob[0][..10]).err().unwrap(), "theodb am: truncated blob meta");
    let (c, l) = sample();
    let items = structured_page_items(1, 2, 0, &c, &l);
    match main_index_plan(&items[0]).expect("ivf") {
        MainIndexPages::IvfDirectory(h) => assert_eq!(h.nlists, 2),
        _ => panic!("structured meta needs its directory"),
    }
    assert_eq!(main_index_plan(&items[0][..20]).err().unwrap(), "theodb am: truncated structured meta");
}

#[test]
fn main_index_extent_of_an_hnsw_index_is_its_pending_start() {
    let m = HnswMeta {
        metric_tag: 0,
        dim: 4,
        m: 16,
        m0: 32,
        entry_blkno: 1,
        entry_offno: 1,
        entry_level: 0,
        node_count: 1,
        elem_first: 1,
        elem_npages: 1,
        nbr_first: 2,
        nbr_npages: 3,
        sbq_bits: 0,
        codebook: vec![],
        aq_m: 0,
        aq_codebook: vec![],
        aq_cb_first: 0,
        aq_cb_npages: 0,
        raw_first: 0,
        raw_npages: 0,
    };
    match main_index_plan(&encode_meta(&m)).expect("hnsw") {
        MainIndexPages::Pages(n) => assert_eq!(n, 5),
        _ => panic!("an HNSW meta knows its extent"),
    }
}
