//! The persisted index blob shared by the two access methods: one algorithm's serialization,
//! told apart by the 4-byte little-endian magic it starts with.
use crate::bytes::{le_u32_at, read_u32_le};
use vstd::prelude::*;

verus! {

pub const ERR_TRUNCATED_BLOB: &'static str = "theodb am: truncated index blob";

pub const ERR_UNKNOWN_MAGIC: &'static str = "theodb am: unknown index magic";

/// A persisted index: the serialized blob of an IVFFlat or of an HNSW index.
#[derive(Debug, PartialEq, Eq)]
pub enum Persisted {
    Ivf(Vec<u8>),
    Hnsw(Vec<u8>),
}

impl Persisted {
    /// The blob the index was stored as.
    pub open spec fn blob(&self) -> Seq<u8> {
        match self {
            Persisted::Ivf(b) => b@,
            Persisted::Hnsw(b) => b@,
        }
    }

    /// The serialized index.
    pub fn to_bytes(&self) -> (r: Vec<u8>)
        ensures
            r@ == self.blob(),
    {
        match self {
            Persisted::Ivf(b) => vstd::slice::slice_to_vec(b.as_slice()),
            Persisted::Hnsw(b) => vstd::slice::slice_to_vec(b.as_slice()),
        }
    }

    /// Tell a blob's algorithm by its leading magic, `ivf_magic` or `hnsw_magic` (the two
    /// algorithms' own constants): a blob shorter than the magic, or with another one, is refused.
    pub fn from_bytes(bytes: &[u8], ivf_magic: u32, hnsw_magic: u32) -> (r: Result<Persisted, String>)
        ensures
            r is Ok <==> spec_dispatch(bytes@, ivf_magic, hnsw_magic) is Some,
            r matches Ok(p) ==> p.blob() == bytes@ && (p is Ivf <==> spec_dispatch(bytes@, ivf_magic, hnsw_magic)
                == Some(true)),
            r matches Err(e) ==> e@ == (if bytes@.len() < 4 {
                ERR_TRUNCATED_BLOB@
            } else {
                ERR_UNKNOWN_MAGIC@
            }),
    {
        if bytes.len() < 4 {
            return Err(ERR_TRUNCATED_BLOB.to_string());
        }
        let magic = read_u32_le(bytes, 0);
        if magic == ivf_magic {
            Ok(Persisted::Ivf(vstd::slice::slice_to_vec(bytes)))
        } else if magic == hnsw_magic {
            Ok(Persisted::Hnsw(vstd::slice::slice_to_vec(bytes)))
        } else {
            Err(ERR_UNKNOWN_MAGIC.to_string())
        }
    }
}

/// A stored index reads back as itself: the blob of an index that starts with its algorithm's
/// magic (the two magics differ) dispatches to that algorithm, so `from_bytes` of `to_bytes`
/// gives the same variant over the same bytes.
pub proof fn lemma_persisted_round_trip(p: Persisted, ivf_magic: u32, hnsw_magic: u32)
    requires
        ivf_magic != hnsw_magic,
        p.blob().len() >= 4,
        p is Ivf ==> le_u32_at(p.blob(), 0) == ivf_magic,
        p is Hnsw ==> le_u32_at(p.blob(), 0) == hnsw_magic,
    ensures
        (p is Ivf ==> spec_dispatch(p.blob(), ivf_magic, hnsw_magic) == Some(true)),
        (p is Hnsw ==> spec_dispatch(p.blob(), ivf_magic, hnsw_magic) == Some(false)),
{
}

/// Which algorithm a blob dispatches to: `Some(true)` IVFFlat, `Some(false)` HNSW, `None` refused.
pub open spec fn spec_dispatch(b: Seq<u8>, ivf_magic: u32, hnsw_magic: u32) -> Option<bool> {
    if b.len() < 4 {
        None
    } else if le_u32_at(b, 0) == ivf_magic {
        Some(true)
    } else if le_u32_at(b, 0) == hnsw_magic {
        Some(false)
    } else {
        None
    }
}

} // verus!
