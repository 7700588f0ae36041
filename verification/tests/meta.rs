use theodb_am::meta::{decode_aq_descriptor, decode_meta, decode_trailer, encode_meta, HnswMeta, META_LEN};

fn base_meta() -> HnswMeta {
    HnswMeta {
        metric_tag: 2,
        dim: 768,
        m: 16,
        m0: 32,
        entry_blkno: 5,
        entry_offno: 3,
        entry_level: 4,
        node_count: 1000,
        elem_first: 1,
        elem_npages: 67,
        nbr_first: 68,
        nbr_npages: 90,
        sbq_bits: 0,
        codebook: vec![],
        aq_m: 0,
        aq_codebook: vec![],
        aq_cb_first: 0,
        aq_cb_npages: 0,
        raw_first: 0,
        raw_npages: 0,
    }
}

#[test]
fn v1_meta_roundtrips() {
    let m = base_meta();
    let b = encode_meta(&m);
    assert_eq!(b.len(), META_LEN);
    let d = decode_meta(&b).expect("decode");
    assert_eq!((d.metric_tag, d.dim, d.m, d.m0), (2, 768, 16, 32));
    assert_eq!((d.entry_blkno, d.entry_offno, d.entry_level), (5, 3, 4));
    assert_eq!((d.node_count, d.elem_first, d.elem_npages, d.nbr_first, d.nbr_npages), (1000, 1, 67, 68, 90));
    assert_eq!(d.pending_start(), 158);
}

#[test]
fn v2_meta_carries_the_sbq_codebook() {
    let mut m = base_meta();
    m.sbq_bits = 2;
    m.codebook = vec![9, 8, 7, 6, 5];
    let b = encode_meta(&m);
    assert_eq!(u32::from_le_bytes(b[4..8].try_into().unwrap()), 2);
    let d = decode_meta(&b).expect("decode");
    assert_eq!(d.sbq_bits, 2);
    assert_eq!(d.codebook, vec![9, 8, 7, 6, 5]);
}

#[test]
fn v4_meta_carries_the_aq_and_raw_descriptors() {
    let mut m = base_meta();
    m.aq_m = 8;
    m.aq_codebook = vec![1u8; 300];
    m.aq_cb_first = 158;
    m.aq_cb_npages = 1;
    m.raw_first = 159;
    m.raw_npages = 70;
    let b = encode_meta(&m);
    assert_eq!(u32::from_le_bytes(b[4..8].try_into().unwrap()), 4);
    let d = decode_meta(&b).expect("decode");
    assert_eq!((d.aq_m, d.aq_cb_first, d.aq_cb_npages, d.raw_first, d.raw_npages), (8, 158, 1, 159, 70));
    assert!(d.aq_codebook.is_empty());
    assert_eq!(d.pending_start(), 229);
    let desc = decode_aq_descriptor(&b, true).expect("descriptor");
    assert_eq!(desc.cb_len, 300);
}

#[test]
fn meta_decode_errors() {
    assert_eq!(decode_meta(&[0u8; 10]).err().unwrap(), "theodb hnsw: truncated meta page");
    let mut b = encode_meta(&base_meta());
    b[0] ^= 0xff;
    assert!(decode_meta(&b).err().unwrap().starts_with("theodb hnsw: bad structured meta magic"));
    let mut v = encode_meta(&base_meta());
    v[4..8].copy_from_slice(&9u32.to_le_bytes());
    assert!(decode_meta(&v).err().unwrap().contains("unsupported structured meta version v9"));
}

#[test]
fn trailer_length_must_match() {
    let mut m = base_meta();
    m.sbq_bits = 1;
    m.codebook = vec![1, 2, 3];
    let mut b = encode_meta(&m);
    b.push(0);
    assert!(decode_trailer(&b, "v2 SBQ").is_err());
    assert!(decode_meta(&b).is_err());
    let short = &b[..META_LEN + 2];
    assert!(decode_trailer(short, "v2 SBQ").err().unwrap().contains("truncated v2 SBQ trailer"));
}

#[test]
fn resume_only_for_an_enabled_built_uncoded_index() {
    let m = base_meta();
    assert!(m.resume_applies(true));
    assert!(!m.resume_applies(false));
    let mut empty = base_meta();
    empty.entry_level = -1;
    assert!(!empty.resume_applies(true));
    let mut none = base_meta();
    none.node_count = 0;
    assert!(!none.resume_applies(true));
    let mut sbq = base_meta();
    sbq.sbq_bits = 2;
    assert!(!sbq.resume_applies(true));
    let mut aq = base_meta();
    aq.aq_m = 8;
    assert!(!aq.resume_applies(true));
}
