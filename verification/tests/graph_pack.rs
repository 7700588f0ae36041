use theodb_am::codec::{decode_element, decode_neighbors, decode_neighbors_into};
use theodb_am::graph::HnswGraph;
use theodb_am::meta::decode_meta;
use theodb_am::pack::{codebook_pages, pack, pack_aq, pack_at, CodeSpec};
use theodb_am::pack::codebook_from_packed;

fn fbytes(v: &[f32]) -> Vec<u8> {
    v.iter().flat_map(|x| x.to_le_bytes()).collect()
}

fn small_graph() -> HnswGraph {
    HnswGraph {
        metric_tag: 0,
        m: 2,
        m0: 4,
        dim: 2,
        levels: vec![0, 1, 0],
        ids: vec![10, 11, 12],
        vectors: vec![fbytes(&[1.0, 2.0]), fbytes(&[3.0, 4.0]), fbytes(&[5.0, 6.0])],
        neighbors: vec![vec![vec![1, 2]], vec![vec![0, 2], vec![]], vec![vec![0, 1]]],
        entry: Some(1),
    }
}

#[test]
fn pack_small_graph_reads_back() {
    let g = small_graph();
    let p = pack(&g).expect("pack");
    let meta = decode_meta(&p.meta).expect("meta");
    assert_eq!(meta.node_count, 3);
    assert_eq!(meta.dim, 2);
    assert_eq!((meta.m, meta.m0), (2, 4));
    assert_eq!(meta.elem_first, 1);
    assert_eq!(meta.entry_level, 1);
    assert_eq!(meta.pending_start() as usize, 1 + p.pages.len());
    // every element decodes to its node's id and vector
    let elem_page = &p.pages[(meta.entry_blkno - 1) as usize];
    let entry = decode_element(&elem_page[(meta.entry_offno - 1) as usize]).expect("entry");
    assert_eq!(entry.tid, 11);
    for (k, item) in p.pages[0].iter().enumerate() {
        let e = decode_element(item).expect("element");
        assert_eq!(e.tid, g.ids[k]);
        assert_eq!(e.vec_bytes, g.vectors[k].as_slice());
        assert!(!e.deleted);
        // the neighbor pointer resolves to a neighbor tuple naming the neighbors' elements
        let (blk, off) = e.nbr_addr;
        let nt = &p.pages[(blk - 1) as usize][(off - 1) as usize];
        let ground = decode_neighbors(nt, g.levels[k], 0, g.m, g.m0).expect("neighbors");
        let want: Vec<(u32, u16)> = g.neighbors[k][0].iter().map(|&j| (1u32, (j + 1) as u16)).collect();
        assert_eq!(ground, want);
    }
}

#[test]
fn pack_of_an_empty_graph_is_a_meta_page() {
    let g = HnswGraph {
        metric_tag: 1,
        m: 16,
        m0: 32,
        dim: 3,
        levels: vec![],
        ids: vec![],
        vectors: vec![],
        neighbors: vec![],
        entry: None,
    };
    let p = pack(&g).expect("pack");
    assert!(p.pages.is_empty());
    let meta = decode_meta(&p.meta).expect("meta");
    assert_eq!(meta.node_count, 0);
    assert!(meta.entry_level < 0);
}

#[test]
fn pack_without_an_entry_point_fails() {
    let mut g = small_graph();
    g.entry = None;
    assert_eq!(pack(&g).err().unwrap(), "theodb hnsw: non-empty graph without an entry point");
}

#[test]
fn pack_at_base_shifts_every_pointer() {
    let g = small_graph();
    let p = pack_at(&g, 40, 0, CodeSpec::none()).expect("pack");
    let meta = decode_meta(&p.meta).expect("meta");
    assert_eq!(meta.elem_first, 40);
    assert_eq!(meta.entry_blkno, 40);
    let e = decode_element(&p.pages[0][0]).expect("element");
    assert!(e.nbr_addr.0 >= 41);
    assert_eq!(meta.pending_start() as usize, 40 + p.pages.len());
}

#[test]
fn codebook_pages_split_and_reassemble() {
    let cb: Vec<u8> = (0..20000u32).map(|i| (i % 251) as u8).collect();
    let pages = codebook_pages(&cb);
    assert_eq!(pages.len(), 3);
    assert_eq!(pages[0][0].len(), 8000);
    assert_eq!(pages[2][0].len(), 4000);
    let packed = theodb_am::meta::Packed { meta: vec![], pages };
    assert_eq!(codebook_from_packed(&packed, 1, 3), cb);
    assert!(codebook_pages(&[]).is_empty());
}

#[test]
fn decode_neighbors_into_clears_the_scratch_and_matches() {
    let g = small_graph();
    let p = pack(&g).expect("pack");
    for (k, item) in p.pages[0].iter().enumerate() {
        let e = decode_element(item).expect("element");
        let (blk, off) = e.nbr_addr;
        let nt = &p.pages[(blk - 1) as usize][(off - 1) as usize];
        for lc in 0..=g.levels[k] {
            let orig = decode_neighbors(nt, g.levels[k], lc, g.m, g.m0).expect("neighbors");
            let mut scratch: Vec<(u32, u16)> = vec![(9999, 9999), (8888, 8888)];
            decode_neighbors_into(nt, g.levels[k], lc, g.m, g.m0, &mut scratch).expect("into");
            assert_eq!(scratch, orig);
        }
        // a layer above the node's level is empty
        assert!(decode_neighbors(nt, g.levels[k], g.levels[k] + 1, g.m, g.m0).expect("above").is_empty());
    }
}

#[test]
fn pack_aq_without_subspaces_is_the_plain_pack() {
    let g = small_graph();
    let a = pack_aq(&g, 1, 0, CodeSpec::none()).expect("aq m=0");
    let b = pack(&g).expect("pack");
    assert_eq!(a.meta, b.meta);
    assert_eq!(a.pages, b.pages);
}

#[test]
fn bad_neighbor_tuple_is_an_error() {
    assert_eq!(decode_neighbors(&[1, 0, 0, 0], 0, 0, 2, 4).err().unwrap(), "theodb hnsw: bad neighbor tuple");
    assert_eq!(decode_neighbors(&[2, 0, 0, 0, 1], 0, 0, 2, 4).err().unwrap(), "theodb hnsw: truncated neighbor tuple");
}

#[test]
fn codebook_pages_read_back_wherever_they_stand() {
    let cb: Vec<u8> = (0..9000u32).map(|i| (i % 7) as u8).collect();
    let mut pages = vec![vec![vec![1u8, 2, 3]], vec![vec![9u8]]];
    pages.extend(codebook_pages(&cb));
    pages.push(vec![vec![4u8]]);
    let packed = theodb_am::meta::Packed { meta: vec![], pages };
    assert_eq!(codebook_from_packed(&packed, 3, 2), cb);
}
