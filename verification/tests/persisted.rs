use theodb_am::persisted::{Persisted, ERR_TRUNCATED_BLOB, ERR_UNKNOWN_MAGIC};

const IVF: u32 = 0x3146_5649;
const HNSW: u32 = 0x5753_4e48;

#[test]
fn a_blob_dispatches_on_its_magic() {
    let mut ivf = IVF.to_le_bytes().to_vec();
    ivf.extend_from_slice(&[1, 2, 3]);
    let p = Persisted::from_bytes(&ivf, IVF, HNSW).unwrap();
    assert_eq!(p, Persisted::Ivf(ivf.clone()));
    assert_eq!(p.to_bytes(), ivf);
    let hnsw = HNSW.to_le_bytes().to_vec();
    assert_eq!(Persisted::from_bytes(&hnsw, IVF, HNSW).unwrap(), Persisted::Hnsw(hnsw.clone()));
}

#[test]
fn a_short_or_foreign_blob_is_refused() {
    assert_eq!(Persisted::from_bytes(&[1, 2, 3], IVF, HNSW).unwrap_err(), ERR_TRUNCATED_BLOB);
    assert_eq!(Persisted::from_bytes(&[0, 0, 0, 0, 9], IVF, HNSW).unwrap_err(), ERR_UNKNOWN_MAGIC);
}
