//! Build options (`WITH (...)` reloptions) of the index access methods: defaults, ranges, and the
//! sanitising of a stored value. Each reader takes the relation's stored value, or `None` when the
//! relation has no options at all.
use vstd::prelude::*;

verus! {

pub const DEFAULT_LISTS: usize = 100;
pub const MIN_LISTS: i32 = 1;
pub const MAX_LISTS: i32 = 32768;
pub const DEFAULT_SBQ_BITS: i32 = 0;
pub const MIN_SBQ_BITS: i32 = 0;
pub const MAX_SBQ_BITS: i32 = 8;
pub const DEFAULT_PQ_SUBSPACES: i32 = 0;
pub const MIN_PQ_SUBSPACES: i32 = 0;
pub const MAX_PQ_SUBSPACES: i32 = 2048;
pub const DEFAULT_PQ_BITS: i32 = 4;
pub const MIN_PQ_BITS: i32 = 4;
pub const MAX_PQ_BITS: i32 = 4;
pub const DEFAULT_AQ_THRESHOLD_MILLI: i32 = 1000;
pub const MIN_AQ_THRESHOLD_MILLI: i32 = 1000;
pub const MAX_AQ_THRESHOLD_MILLI: i32 = 1_000_000;
pub const DEFAULT_SEPARATE_STORAGE: i32 = 0;
pub const MIN_SEPARATE_STORAGE: i32 = 0;
pub const MAX_SEPARATE_STORAGE: i32 = 1;
pub const DEFAULT_REFINE: i32 = 0;
pub const MIN_REFINE: i32 = 0;
pub const MAX_REFINE: i32 = 2;
pub const DEFAULT_RABITQ_BITS: i32 = 7;
pub const MIN_RABITQ_BITS: i32 = 1;
pub const MAX_RABITQ_BITS: i32 = 8;
pub const DEFAULT_SYMQG_DEGREE: i32 = 32;
pub const MIN_SYMQG_DEGREE: i32 = 32;
pub const MAX_SYMQG_DEGREE: i32 = 512;
pub const DEFAULT_SOAR_LAMBDA_MILLI: i32 = 0;
pub const MIN_SOAR_LAMBDA_MILLI: i32 = 0;
pub const MAX_SOAR_LAMBDA_MILLI: i32 = 5000;

/// Number of IVF lists: the stored value when at least 1, else the default.
pub fn lists_from_relation(stored: Option<i32>) -> (r: usize)
    ensures
        r == (match stored {
            Some(v) if v >= MIN_LISTS => v as int,
            _ => DEFAULT_LISTS as int,
        }),
{
    match stored {
        Some(v) => {
            if v < MIN_LISTS {
                DEFAULT_LISTS
            } else {
                v as usize
            }
        },
        None => DEFAULT_LISTS,
    }
}

/// SBQ bits per dimension: the stored value when within `0..=8`, else 0 (f32-only).
pub fn sbq_bits_from_relation(stored: Option<i32>) -> (r: u8)
    ensures
        r == (match stored {
            Some(v) if MIN_SBQ_BITS <= v <= MAX_SBQ_BITS => v as int,
            _ => 0,
        }),
{
    match stored {
        Some(v) => {
            if MIN_SBQ_BITS <= v && v <= MAX_SBQ_BITS {
                v as u8
            } else {
                0
            }
        },
        None => 0,
    }
}

/// AQ subspace count: the stored value when non-negative, else the default (0 = AQ off).
pub fn pq_subspaces_from_relation(stored: Option<i32>) -> (r: usize)
    ensures
        r == (match stored {
            Some(v) if v >= MIN_PQ_SUBSPACES => v as int,
            _ => DEFAULT_PQ_SUBSPACES as int,
        }),
{
    match stored {
        Some(v) => {
            if v < MIN_PQ_SUBSPACES {
                DEFAULT_PQ_SUBSPACES as usize
            } else {
                v as usize
            }
        },
        None => DEFAULT_PQ_SUBSPACES as usize,
    }
}

/// Bits per AQ subquantizer: the stored value when within `4..=4`, else the default 4.
pub fn pq_bits_from_relation(stored: Option<i32>) -> (r: u8)
    ensures
        r == (match stored {
            Some(v) if MIN_PQ_BITS <= v <= MAX_PQ_BITS => v as int,
            _ => DEFAULT_PQ_BITS as int,
        }),
{
    match stored {
        Some(v) => {
            if MIN_PQ_BITS <= v && v <= MAX_PQ_BITS {
                v as u8
            } else {
                DEFAULT_PQ_BITS as u8
            }
        },
        None => DEFAULT_PQ_BITS as u8,
    }
}

/// Whether the storage-separated IVF-AQ layout is requested (stored value exactly 1).
pub fn separate_storage_from_relation(stored: Option<i32>) -> (r: bool)
    ensures
        r == (stored == Some(1i32)),
{
    match stored {
        Some(v) => v == 1,
        None => false,
    }
}

/// Whether the SQ8 rerank is requested (`refine` exactly 1).
pub fn refine_sq8_from_relation(stored: Option<i32>) -> (r: bool)
    ensures
        r == (stored == Some(1i32)),
{
    match stored {
        Some(v) => v == 1,
        None => false,
    }
}

/// Whether the RaBitQ rerank is requested (`refine` exactly 2).
pub fn refine_rabitq_from_relation(stored: Option<i32>) -> (r: bool)
    ensures
        r == (stored == Some(2i32)),
{
    match stored {
        Some(v) => v == 2,
        None => false,
    }
}

/// RaBitQ bits per dimension: the stored value when within `1..=8`, else the default 7.
pub fn rabitq_bits_from_relation(stored: Option<i32>) -> (r: u8)
    ensures
        r == (match stored {
            Some(v) if MIN_RABITQ_BITS <= v <= MAX_RABITQ_BITS => v as int,
            _ => DEFAULT_RABITQ_BITS as int,
        }),
{
    match stored {
        Some(v) => {
            if MIN_RABITQ_BITS <= v && v <= MAX_RABITQ_BITS {
                v as u8
            } else {
                DEFAULT_RABITQ_BITS as u8
            }
        },
        None => DEFAULT_RABITQ_BITS as u8,
    }
}

pub open spec fn clamp_i(v: int, lo: int, hi: int) -> int {
    if v < lo { lo } else if v > hi { hi } else { v }
}

/// Per-vertex out-degree of the co-located graph: the stored value clamped to `32..=512`, then
/// rounded up to a multiple of 32 (the default 32 without options).
pub fn degree_bound_from_relation(stored: Option<i32>) -> (r: usize)
    ensures
        r == (match stored {
            Some(v) => (clamp_i(v as int, MIN_SYMQG_DEGREE as int, MAX_SYMQG_DEGREE as int) + 31) / 32 * 32,
            None => DEFAULT_SYMQG_DEGREE as int,
        }),
        r % 32 == 0,
        MIN_SYMQG_DEGREE <= r <= MAX_SYMQG_DEGREE,
{
    match stored {
        Some(v) => {
            let c: i32 = if v < MIN_SYMQG_DEGREE {
                MIN_SYMQG_DEGREE
            } else if v > MAX_SYMQG_DEGREE {
                MAX_SYMQG_DEGREE
            } else {
                v
            };
            let u = c as usize;
            let q = u / 32 + if u % 32 != 0 { 1 } else { 0 };
            assert(q == (u + 31) / 32);
            q * 32
        },
        None => DEFAULT_SYMQG_DEGREE as usize,
    }
}

} // verus!
