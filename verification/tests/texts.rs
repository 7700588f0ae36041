use theodb_am::columns::{cells_to_array, fixed_raw_array, INT4_OID};
use theodb_am::graph::HnswGraph;
use theodb_am::layout::HNSW_STRUCT_MAGIC;
use theodb_am::pack::pack;
use theodb_am::meta::{decode_aq_descriptor, decode_meta, decode_trailer, META_LEN};
use theodb_am::store::{assemble_codebook, check_codebook_range, raw_entry_vector};
use theodb_am::text::push_decimal;

#[test]
fn numbers_are_written_in_decimal() {
    let mut s = String::from("n=");
    push_decimal(&mut s, 0);
    s.push(' ');
    push_decimal(&mut s, 1_234_567);
    s.push(' ');
    push_decimal(&mut s, u64::MAX);
    assert_eq!(s, "n=0 1234567 18446744073709551615");
}

#[test]
fn column_errors_name_the_sizes_and_type() {
    assert_eq!(
        fixed_raw_array(INT4_OID, &[0u8; 7], 4, 2).unwrap_err(),
        "df_executor: fixed-raw size 7 != 4*2 (typid 23)"
    );
    assert_eq!(fixed_raw_array(16, &[0u8; 2], 1, 2).unwrap_err(), "df_executor: fixed_raw_array unexpected typid 16");
    assert_eq!(
        cells_to_array(17, &[None]).unwrap_err(),
        "df_executor: unsupported column type oid 17 (Phase A: int2/4/8, float4/8, bool, text)"
    );
}

#[test]
fn meta_errors_name_the_version_and_lengths() {
    let mut b = vec![0u8; META_LEN];
    b[0..4].copy_from_slice(&HNSW_STRUCT_MAGIC.to_le_bytes());
    b[4..8].copy_from_slice(&9u32.to_le_bytes());
    assert_eq!(
        decode_meta(&b).unwrap_err(),
        "theodb hnsw: unsupported structured meta version v9 — REINDEX with a compatible theodb build"
    );
    let mut t = vec![0u8; META_LEN + 5];
    t[META_LEN + 1..META_LEN + 5].copy_from_slice(&3u32.to_le_bytes());
    t.push(1);
    assert_eq!(
        decode_trailer(&t, "v2 SBQ").unwrap_err(),
        "theodb hnsw: v2 SBQ codebook length mismatch (declared 3, have 1)"
    );
    assert_eq!(
        decode_aq_descriptor(&t, true).err().unwrap(),
        "theodb hnsw: v4 AQ descriptor length mismatch (expected 66, have 51)"
    );
}

#[test]
fn codebook_errors_name_the_range_and_lengths() {
    assert_eq!(
        check_codebook_range(5, 3, 7).unwrap_err(),
        "theodb hnsw: AQ codebook pages [5, 8) out of range (nblocks 7) — REINDEX (v3 corruption)"
    );
    assert_eq!(
        assemble_codebook(&vec![vec![vec![1, 2], vec![3]]], 4).unwrap_err(),
        "theodb hnsw: AQ codebook length mismatch (declared 4, read 3) — REINDEX (v3 corruption)"
    );
}

#[test]
fn a_raw_tuple_of_the_wrong_size_names_both_sizes() {
    let mut raw = vec![0u8; 4];
    raw[0] = 3;
    raw.extend_from_slice(&[0u8; 8]);
    assert_eq!(
        raw_entry_vector(&raw, 3).unwrap_err(),
        "theodb hnsw: v4 raw tuple has 8 f32 bytes, hot tuple dim says 12 — REINDEX (v4 corruption)"
    );
}

#[test]
fn an_oversized_neighbor_tuple_names_its_level_and_size() {
    let g = HnswGraph {
        metric_tag: 0,
        m: 16,
        m0: 32,
        dim: 1,
        levels: vec![0, 200],
        ids: vec![1, 2],
        vectors: vec![1.0f32.to_le_bytes().to_vec(), 2.0f32.to_le_bytes().to_vec()],
        neighbors: vec![vec![vec![1]], vec![vec![0]; 201]],
        entry: Some(1),
    };
    assert_eq!(
        pack(&g).err().unwrap(),
        "theodb hnsw: neighbor tuple for a level-200 node exceeds one page (19396 B) — build must cap max level"
    );
}
