//! Typed column values from the columnar store's stored bytes, for the vectorized executor: a
//! non-null fixed-width column arrives as one contiguous little-endian stream, any other column as
//! one optional cell per row. Floats are carried as their IEEE-754 bit patterns and text as its
//! stored bytes; the executor turns them into its own array types.
use crate::bytes::{le_i16_at, le_i64_at, le_u32_at, le_u64_at, read_i16_le, read_i64_le, read_u32_le, read_u64_le};
use crate::pack::concat_items;
use crate::text::{decimal, push_decimal, push_str};
use vstd::prelude::*;

verus! {

broadcast use vstd::seq_lib::group_seq_properties;

pub const INT2_OID: u32 = 21;
pub const INT4_OID: u32 = 23;
pub const INT8_OID: u32 = 20;
pub const FLOAT4_OID: u32 = 700;
pub const FLOAT8_OID: u32 = 701;
pub const BOOL_OID: u32 = 16;
pub const TEXT_OID: u32 = 25;
pub const BPCHAR_OID: u32 = 1042;
pub const VARCHAR_OID: u32 = 1043;
pub const DATE_OID: u32 = 1082;
pub const TIMESTAMP_OID: u32 = 1114;
pub const TIMESTAMPTZ_OID: u32 = 1184;

/// A decoded column, one entry per row (`None` for SQL NULL).
#[derive(Debug, PartialEq)]
pub enum ColumnValues {
    Int16(Vec<Option<i16>>),
    Int32(Vec<Option<i32>>),
    Int64(Vec<Option<i64>>),
    /// IEEE-754 single-precision bit patterns.
    Float32(Vec<Option<u32>>),
    /// IEEE-754 double-precision bit patterns.
    Float64(Vec<Option<u64>>),
    Boolean(Vec<Option<bool>>),
    /// Text, decoded from the stored bytes as lossy UTF-8.
    Utf8(Vec<Option<String>>),
    /// Days since the epoch.
    Date32(Vec<Option<i32>>),
    /// Microseconds since the epoch.
    TimestampMicros(Vec<Option<i64>>),
}

/// The content of a `ColumnValues`.
pub enum ColumnModel {
    Int16(Seq<Option<i16>>),
    Int32(Seq<Option<i32>>),
    Int64(Seq<Option<i64>>),
    Float32(Seq<Option<u32>>),
    Float64(Seq<Option<u64>>),
    Boolean(Seq<Option<bool>>),
    Utf8(Seq<Option<Seq<char>>>),
    Date32(Seq<Option<i32>>),
    TimestampMicros(Seq<Option<i64>>),
}

/// The characters of each text value.
pub open spec fn text_values(v: Seq<Option<String>>) -> Seq<Option<Seq<char>>> {
    Seq::new(v.len(), |i: int| match v[i] { Some(t) => Some(t@), None => None })
}

/// The characters that lossy UTF-8 decoding (`String::from_utf8_lossy`) gives for `b`: each
/// valid sequence decoded, each invalid one replaced by U+FFFD.
pub uninterp spec fn utf8_lossy(b: Seq<u8>) -> Seq<char>;

/// `String::from_utf8_lossy` of `b`, owned: the result is `utf8_lossy` of the bytes, a function
/// of the bytes alone.
#[verifier::external_body]
fn lossy_text(b: &[u8]) -> (s: String)
    ensures
        s@ == utf8_lossy(b@),
{
    String::from_utf8_lossy(b).into_owned()
}

/// The cells decoded as lossy UTF-8 text.
pub open spec fn text_cells(c: Seq<Option<Seq<u8>>>) -> Seq<Option<Seq<char>>> {
    Seq::new(c.len(), |i: int| match c[i] { Some(b) => Some(utf8_lossy(b)), None => None })
}

impl View for ColumnValues {
    type V = ColumnModel;

    open spec fn view(&self) -> ColumnModel {
        match self {
            ColumnValues::Int16(v) => ColumnModel::Int16(v@),
            ColumnValues::Int32(v) => ColumnModel::Int32(v@),
            ColumnValues::Int64(v) => ColumnModel::Int64(v@),
            ColumnValues::Float32(v) => ColumnModel::Float32(v@),
            ColumnValues::Float64(v) => ColumnModel::Float64(v@),
            ColumnValues::Boolean(v) => ColumnModel::Boolean(v@),
            ColumnValues::Utf8(v) => ColumnModel::Utf8(text_values(v@)),
            ColumnValues::Date32(v) => ColumnModel::Date32(v@),
            ColumnValues::TimestampMicros(v) => ColumnModel::TimestampMicros(v@),
        }
    }
}

/// Whether a column of this type may be a GROUP BY key or a `COUNT(DISTINCT)` argument of the
/// vectorized path, where values group by their bytes: `bpchar` is excluded (it compares
/// ignoring trailing blanks).
pub fn arrow_supported_group_type(typoid: u32) -> (r: bool)
    ensures
        r == (typoid == INT2_OID || typoid == INT4_OID || typoid == INT8_OID || typoid == FLOAT4_OID || typoid
            == FLOAT8_OID || typoid == BOOL_OID || typoid == TEXT_OID || typoid == VARCHAR_OID || typoid
            == TIMESTAMP_OID || typoid == TIMESTAMPTZ_OID || typoid == DATE_OID),
{
    typoid == INT2_OID || typoid == INT4_OID || typoid == INT8_OID || typoid == FLOAT4_OID || typoid == FLOAT8_OID
        || typoid == BOOL_OID || typoid == TEXT_OID || typoid == VARCHAR_OID || typoid == TIMESTAMP_OID || typoid
        == TIMESTAMPTZ_OID || typoid == DATE_OID
}

/// Bytes per value of a fixed-width type the fast path decodes (0 for any other type).
pub open spec fn fixed_width(typid: u32) -> int {
    if typid == INT2_OID {
        2
    } else if typid == INT4_OID || typid == FLOAT4_OID || typid == DATE_OID {
        4
    } else if typid == INT8_OID || typid == FLOAT8_OID || typid == TIMESTAMP_OID || typid == TIMESTAMPTZ_OID {
        8
    } else {
        0
    }
}

/// The bytes a stored cell of this type must have at least (what its decoding reads).
pub open spec fn cell_width(typid: u32) -> int {
    fixed_width(typid)
}

/// A type the per-cell path decodes.
pub open spec fn cell_type_supported(typid: u32) -> bool {
    fixed_width(typid) > 0 || typid == BOOL_OID || typid == TEXT_OID || typid == BPCHAR_OID || typid == VARCHAR_OID
}

pub open spec fn le_i32_at(b: Seq<u8>, o: int) -> i32 {
    le_u32_at(b, o) as i32
}

/// The cells read as little-endian `i16`s.
pub open spec fn i16_cells(c: Seq<Option<Seq<u8>>>) -> Seq<Option<i16>> {
    Seq::new(c.len(), |i: int| match c[i] { Some(b) => Some(le_i16_at(b, 0)), None => None })
}

/// The cells read as little-endian `u32`s.
pub open spec fn u32_cells(c: Seq<Option<Seq<u8>>>) -> Seq<Option<u32>> {
    Seq::new(c.len(), |i: int| match c[i] { Some(b) => Some(le_u32_at(b, 0)), None => None })
}

/// The cells read as little-endian `i32`s.
pub open spec fn i32_cells(c: Seq<Option<Seq<u8>>>) -> Seq<Option<i32>> {
    Seq::new(c.len(), |i: int| match c[i] { Some(b) => Some(le_i32_at(b, 0)), None => None })
}

/// The cells read as little-endian `u64`s.
pub open spec fn u64_cells(c: Seq<Option<Seq<u8>>>) -> Seq<Option<u64>> {
    Seq::new(c.len(), |i: int| match c[i] { Some(b) => Some(le_u64_at(b, 0)), None => None })
}

/// The cells read as little-endian `i64`s.
pub open spec fn i64_cells(c: Seq<Option<Seq<u8>>>) -> Seq<Option<i64>> {
    Seq::new(c.len(), |i: int| match c[i] { Some(b) => Some(le_i64_at(b, 0)), None => None })
}

/// The cells read as booleans: the first byte non-zero (false for an empty cell).
pub open spec fn bool_cells(c: Seq<Option<Seq<u8>>>) -> Seq<Option<bool>> {
    Seq::new(c.len(), |i: int| match c[i] { Some(b) => Some(b.len() > 0 && b[0] != 0), None => None })
}

/// The column of type `typid` holding the decoded `cells`.
pub open spec fn column_of(typid: u32, cells: Seq<Option<Seq<u8>>>) -> ColumnModel {
    if typid == INT2_OID {
        ColumnModel::Int16(i16_cells(cells))
    } else if typid == INT4_OID {
        ColumnModel::Int32(i32_cells(cells))
    } else if typid == INT8_OID {
        ColumnModel::Int64(i64_cells(cells))
    } else if typid == FLOAT4_OID {
        ColumnModel::Float32(u32_cells(cells))
    } else if typid == FLOAT8_OID {
        ColumnModel::Float64(u64_cells(cells))
    } else if typid == BOOL_OID {
        ColumnModel::Boolean(bool_cells(cells))
    } else if typid == DATE_OID {
        ColumnModel::Date32(i32_cells(cells))
    } else if typid == TIMESTAMP_OID || typid == TIMESTAMPTZ_OID {
        ColumnModel::TimestampMicros(i64_cells(cells))
    } else {
        ColumnModel::Utf8(text_cells(cells))
    }
}

/// The column the per-cell path gives for `cells` of a supported type.
pub open spec fn spec_cells_column(typid: u32, cells: Seq<Option<Seq<u8>>>) -> ColumnModel {
    column_of(typid, cells)
}

/// A contiguous stream of a fixed-width type cut into one value's bytes per row.
pub open spec fn fixed_cells(typid: u32, bytes: Seq<u8>) -> Seq<Option<Seq<u8>>> {
    let w = fixed_width(typid);
    Seq::new(((bytes.len() as int) / w) as nat, |i: int| Some(bytes.subrange(i * w, i * w + w)))
}

/// The column the fast path gives for a contiguous stream of a fixed-width type: one value per
/// whole `fixed_width(typid)` bytes.
pub open spec fn spec_fixed_column(typid: u32, bytes: Seq<u8>) -> ColumnModel {
    column_of(typid, fixed_cells(typid, bytes))
}

/// Every non-NULL cell is long enough for its type's decoding.
pub open spec fn cells_fit(typid: u32, cells: Seq<Option<Seq<u8>>>) -> bool {
    forall|i: int| 0 <= i < cells.len() ==> (#[trigger] cells[i] matches Some(b) ==> b.len() >= cell_width(typid))
}

/// The size-mismatch error text of the fast path.
pub open spec fn fixed_size_text(len: nat, width: nat, row_count: nat, typid: nat) -> Seq<char> {
    "df_executor: fixed-raw size "@ + decimal(len) + " != "@ + decimal(width) + "*"@ + decimal(row_count)
        + " (typid "@ + decimal(typid) + ")"@
}

/// The unexpected-type error text of the fast path.
pub open spec fn fixed_type_text(typid: nat) -> Seq<char> {
    "df_executor: fixed_raw_array unexpected typid "@ + decimal(typid)
}

/// The unsupported-type error text of the per-cell path.
pub open spec fn cell_type_text(typid: nat) -> Seq<char> {
    "df_executor: unsupported column type oid "@ + decimal(typid) + " (Phase A: int2/4/8, float4/8, bool, text)"@
}

fn fixed_size_message(len: usize, width: usize, row_count: usize, typid: u32) -> (r: String)
    ensures
        r@ == fixed_size_text(len as nat, width as nat, row_count as nat, typid as nat),
{
    proof {
        reveal_strlit("df_executor: fixed-raw size ");
        reveal_strlit(" != ");
        reveal_strlit("*");
        reveal_strlit(" (typid ");
        reveal_strlit(")");
    }
    let mut s = String::new();
    push_str(&mut s, "df_executor: fixed-raw size ");
    proof {
        assert(s@ =~= "df_executor: fixed-raw size "@);
    }
    push_decimal(&mut s, len as u64);
    push_str(&mut s, " != ");
    push_decimal(&mut s, width as u64);
    push_str(&mut s, "*");
    push_decimal(&mut s, row_count as u64);
    push_str(&mut s, " (typid ");
    push_decimal(&mut s, typid as u64);
    push_str(&mut s, ")");
    s
}

fn fixed_type_message(typid: u32) -> (r: String)
    ensures
        r@ == fixed_type_text(typid as nat),
{
    proof {
        reveal_strlit("df_executor: fixed_raw_array unexpected typid ");
    }
    let mut s = String::new();
    push_str(&mut s, "df_executor: fixed_raw_array unexpected typid ");
    proof {
        assert(s@ =~= "df_executor: fixed_raw_array unexpected typid "@);
    }
    push_decimal(&mut s, typid as u64);
    s
}

fn cell_type_message(typid: u32) -> (r: String)
    ensures
        r@ == cell_type_text(typid as nat),
{
    proof {
        reveal_strlit("df_executor: unsupported column type oid ");
        reveal_strlit(" (Phase A: int2/4/8, float4/8, bool, text)");
    }
    let mut s = String::new();
    push_str(&mut s, "df_executor: unsupported column type oid ");
    proof {
        assert(s@ =~= "df_executor: unsupported column type oid "@);
    }
    push_decimal(&mut s, typid as u64);
    push_str(&mut s, " (Phase A: int2/4/8, float4/8, bool, text)");
    s
}

// ---------------------------------------------------------------------------------------------
// The per-cell path
// ---------------------------------------------------------------------------------------------

fn cells_u16(cells: &[Option<Vec<u8>>]) -> (r: Vec<Option<i16>>)
    requires
        cells_fit(INT2_OID, cells.deep_view()),
    ensures
        r@ == i16_cells(cells.deep_view()),
{
    let ghost cv = cells.deep_view();
    let mut out: Vec<Option<i16>> = Vec::new();
    let mut i: usize = 0;
    while i < cells.len()
        invariant
            i <= cells@.len(),
            cv == cells.deep_view(),
            cells_fit(INT2_OID, cv),
            out@ =~= Seq::new(i as nat, |k: int| match cv[k] { Some(b) => Some(le_i16_at(b, 0)), None => None }),
        decreases cells@.len() - i,
    {
        let v = match &cells[i] {
            Some(b) => {
                proof {
                    assert(b.deep_view() =~= b@);
                    assert(cv[i as int] == Some(b@));
                }
                Some(read_i16_le(b.as_slice(), 0))
            },
            None => None,
        };
        out.push(v);
        i = i + 1;
    }
    out
}

/// The 32-bit little-endian values of `cells` (`None` for NULL).
fn cells_u32(cells: &[Option<Vec<u8>>], typid: u32) -> (r: Vec<Option<u32>>)
    requires
        cell_width(typid) == 4,
        cells_fit(typid, cells.deep_view()),
    ensures
        r@ == u32_cells(cells.deep_view()),
{
    let ghost cv = cells.deep_view();
    let mut out: Vec<Option<u32>> = Vec::new();
    let mut i: usize = 0;
    while i < cells.len()
        invariant
            i <= cells@.len(),
            cv == cells.deep_view(),
            cell_width(typid) == 4,
            cells_fit(typid, cv),
            out@ =~= Seq::new(i as nat, |k: int| match cv[k] { Some(b) => Some(le_u32_at(b, 0)), None => None }),
        decreases cells@.len() - i,
    {
        let v = match &cells[i] {
            Some(b) => {
                proof {
                    assert(b.deep_view() =~= b@);
                    assert(cv[i as int] == Some(b@));
                }
                Some(read_u32_le(b.as_slice(), 0))
            },
            None => None,
        };
        out.push(v);
        i = i + 1;
    }
    out
}

/// The 64-bit little-endian values of `cells` (`None` for NULL).
fn cells_u64(cells: &[Option<Vec<u8>>], typid: u32) -> (r: Vec<Option<u64>>)
    requires
        cell_width(typid) == 8,
        cells_fit(typid, cells.deep_view()),
    ensures
        r@ == u64_cells(cells.deep_view()),
{
    let ghost cv = cells.deep_view();
    let mut out: Vec<Option<u64>> = Vec::new();
    let mut i: usize = 0;
    while i < cells.len()
        invariant
            i <= cells@.len(),
            cv == cells.deep_view(),
            cell_width(typid) == 8,
            cells_fit(typid, cv),
            out@ =~= Seq::new(i as nat, |k: int| match cv[k] { Some(b) => Some(le_u64_at(b, 0)), None => None }),
        decreases cells@.len() - i,
    {
        let v = match &cells[i] {
            Some(b) => {
                proof {
                    assert(b.deep_view() =~= b@);
                    assert(cv[i as int] == Some(b@));
                }
                Some(read_u64_le(b.as_slice(), 0))
            },
            None => None,
        };
        out.push(v);
        i = i + 1;
    }
    out
}

fn to_i32(v: Vec<Option<u32>>) -> (r: Vec<Option<i32>>)
    ensures
        r@ == Seq::new(v@.len(), |k: int| match v@[k] { Some(x) => Some(x as i32), None => None }),
{
    let mut out: Vec<Option<i32>> = Vec::new();
    let mut i: usize = 0;
    while i < v.len()
        invariant
            i <= v@.len(),
            out@ =~= Seq::new(i as nat, |k: int| match v@[k] { Some(x) => Some(x as i32), None => None }),
        decreases v@.len() - i,
    {
        let x = match v[i] {
            Some(x) => Some(x as i32),
            None => None,
        };
        out.push(x);
        i = i + 1;
    }
    out
}

fn to_i64(v: Vec<Option<u64>>) -> (r: Vec<Option<i64>>)
    ensures
        r@ == Seq::new(v@.len(), |k: int| match v@[k] { Some(x) => Some(x as i64), None => None }),
{
    let mut out: Vec<Option<i64>> = Vec::new();
    let mut i: usize = 0;
    while i < v.len()
        invariant
            i <= v@.len(),
            out@ =~= Seq::new(i as nat, |k: int| match v@[k] { Some(x) => Some(x as i64), None => None }),
        decreases v@.len() - i,
    {
        let x = match v[i] {
            Some(x) => Some(x as i64),
            None => None,
        };
        out.push(x);
        i = i + 1;
    }
    out
}

fn cells_bool(cells: &[Option<Vec<u8>>]) -> (r: Vec<Option<bool>>)
    ensures
        r@ == bool_cells(cells.deep_view()),
{
    let ghost cv = cells.deep_view();
    let mut out: Vec<Option<bool>> = Vec::new();
    let mut i: usize = 0;
    while i < cells.len()
        invariant
            i <= cells@.len(),
            cv == cells.deep_view(),
            out@ =~= Seq::new(i as nat, |k: int| match cv[k] { Some(b) => Some(b.len() > 0 && b[0] != 0), None => None }),
        decreases cells@.len() - i,
    {
        let v = match &cells[i] {
            Some(b) => {
                proof {
                    assert(b.deep_view() =~= b@);
                    assert(cv[i as int] == Some(b@));
                }
                Some(b.len() > 0 && b[0] != 0)
            },
            None => None,
        };
        out.push(v);
        i = i + 1;
    }
    out
}

fn cells_text(cells: &[Option<Vec<u8>>]) -> (r: Vec<Option<String>>)
    ensures
        text_values(r@) == text_cells(cells.deep_view()),
{
    let ghost cv = cells.deep_view();
    assert(cv.len() == cells@.len());
    let mut out: Vec<Option<String>> = Vec::new();
    let mut i: usize = 0;
    while i < cells.len()
        invariant
            i <= cells@.len(),
            cv == cells.deep_view(),
            cv.len() == cells@.len(),
            out@.len() == i,
            text_values(out@) =~= text_cells(cv).take(i as int),
        decreases cells@.len() - i,
    {
        let v = match &cells[i] {
            Some(b) => {
                proof {
                    assert(b.deep_view() =~= b@);
                    assert(cv[i as int] == Some(b@));
                }
                Some(lossy_text(b.as_slice()))
            },
            None => {
                proof {
                    assert(cv[i as int] == None::<Seq<u8>>);
                }
                None
            },
        };
        let ghost old_out = out@;
        out.push(v);
        proof {
            assert forall|k: int| 0 <= k < i + 1 implies #[trigger] text_values(out@)[k] == text_cells(cv).take(
                i + 1,
            )[k] by {
                if k < i {
                    assert(out@[k] == old_out[k]);
                    assert(text_values(old_out)[k] == text_cells(cv).take(i as int)[k]);
                }
            }
            assert(text_values(out@) =~= text_cells(cv).take(i + 1));
        }
        i = i + 1;
    }
    proof {
        assert(text_cells(cv).take(cells@.len() as int) =~= text_cells(cv));
    }
    out
}

/// Decode one cell per row of a `typid` column: NULL cells stay NULL; integers, dates and
/// timestamps are their stored little-endian values, floats their bit patterns, booleans their
/// first byte (false when empty), text its bytes decoded as lossy UTF-8. An unsupported type is
/// an error.
pub fn cells_to_array(typid: u32, values: &[Option<Vec<u8>>]) -> (r: Result<ColumnValues, String>)
    requires
        cells_fit(typid, values.deep_view()),
    ensures
        r is Ok <==> cell_type_supported(typid),
        r matches Ok(c) ==> c@ == spec_cells_column(typid, values.deep_view()),
        r matches Err(e) ==> e@ == cell_type_text(typid as nat),
{
    let ghost cv = values.deep_view();
    if typid == INT2_OID {
        let v = cells_u16(values);
        return Ok(ColumnValues::Int16(v));
    } else if typid == INT4_OID || typid == DATE_OID {
        let v = to_i32(cells_u32(values, typid));
        proof {
            assert(v@ =~= i32_cells(cv));
        }
        if typid == INT4_OID {
            return Ok(ColumnValues::Int32(v));
        }
        return Ok(ColumnValues::Date32(v));
    } else if typid == FLOAT4_OID {
        let v = cells_u32(values, typid);
        return Ok(ColumnValues::Float32(v));
    } else if typid == INT8_OID || typid == TIMESTAMP_OID || typid == TIMESTAMPTZ_OID {
        let v = to_i64(cells_u64(values, typid));
        proof {
            assert(v@ =~= i64_cells(cv));
        }
        if typid == INT8_OID {
            return Ok(ColumnValues::Int64(v));
        }
        return Ok(ColumnValues::TimestampMicros(v));
    } else if typid == FLOAT8_OID {
        let v = cells_u64(values, typid);
        return Ok(ColumnValues::Float64(v));
    } else if typid == BOOL_OID {
        let v = cells_bool(values);
        return Ok(ColumnValues::Boolean(v));
    } else if typid == TEXT_OID || typid == BPCHAR_OID || typid == VARCHAR_OID {
        let v = cells_text(values);
        return Ok(ColumnValues::Utf8(v));
    }
    Err(cell_type_message(typid))
}

// ---------------------------------------------------------------------------------------------
// The fixed-width fast path
// ---------------------------------------------------------------------------------------------

fn fixed_i16(bytes: &[u8]) -> (r: Vec<Option<i16>>)
    ensures
        r@ == i16_cells(fixed_cells(INT2_OID, bytes@)),
{
    let ghost fc = fixed_cells(INT2_OID, bytes@);
    let len = bytes.len();
    let n = len / 2;
    let mut out: Vec<Option<i16>> = Vec::new();
    let mut i: usize = 0;
    while i < n
        invariant
            len == bytes@.len(),
            n == len / 2,
            i <= n,
            fc == fixed_cells(INT2_OID, bytes@),
            out@ =~= i16_cells(fc).take(i as int),
        decreases n - i,
    {
        proof {
            assert(bytes@.subrange(2 * i, 2 * i + 2).subrange(0, 2) =~= bytes@.subrange(2 * i, 2 * i + 2));
        }
        out.push(Some(read_i16_le(bytes, 2 * i)));
        i = i + 1;
    }
    proof {
        assert(i16_cells(fc).take(n as int) =~= i16_cells(fc));
    }
    out
}

fn fixed_u32(bytes: &[u8], typid: u32) -> (r: Vec<Option<u32>>)
    requires
        fixed_width(typid) == 4,
    ensures
        r@ == u32_cells(fixed_cells(typid, bytes@)),
{
    let ghost fc = fixed_cells(typid, bytes@);
    let len = bytes.len();
    let n = len / 4;
    let mut out: Vec<Option<u32>> = Vec::new();
    let mut i: usize = 0;
    while i < n
        invariant
            fixed_width(typid) == 4,
            len == bytes@.len(),
            n == len / 4,
            i <= n,
            fc == fixed_cells(typid, bytes@),
            out@ =~= u32_cells(fc).take(i as int),
        decreases n - i,
    {
        proof {
            assert(bytes@.subrange(4 * i, 4 * i + 4).subrange(0, 4) =~= bytes@.subrange(4 * i, 4 * i + 4));
        }
        out.push(Some(read_u32_le(bytes, 4 * i)));
        i = i + 1;
    }
    proof {
        assert(u32_cells(fc).take(n as int) =~= u32_cells(fc));
    }
    out
}

fn fixed_u64(bytes: &[u8], typid: u32) -> (r: Vec<Option<u64>>)
    requires
        fixed_width(typid) == 8,
    ensures
        r@ == u64_cells(fixed_cells(typid, bytes@)),
{
    let ghost fc = fixed_cells(typid, bytes@);
    let len = bytes.len();
    let n = len / 8;
    let mut out: Vec<Option<u64>> = Vec::new();
    let mut i: usize = 0;
    while i < n
        invariant
            fixed_width(typid) == 8,
            len == bytes@.len(),
            n == len / 8,
            i <= n,
            fc == fixed_cells(typid, bytes@),
            out@ =~= u64_cells(fc).take(i as int),
        decreases n - i,
    {
        proof {
            assert(bytes@.subrange(8 * i, 8 * i + 8).subrange(0, 8) =~= bytes@.subrange(8 * i, 8 * i + 8));
        }
        out.push(Some(read_u64_le(bytes, 8 * i)));
        i = i + 1;
    }
    proof {
        assert(u64_cells(fc).take(n as int) =~= u64_cells(fc));
    }
    out
}

/// Decode a non-NULL fixed-width column from its contiguous little-endian stream of
/// `row_count` values of `width` bytes. A stream of another size, or a type without a fixed
/// width, is an error.
pub fn fixed_raw_array(typid: u32, bytes: &[u8], width: usize, row_count: usize) -> (r: Result<ColumnValues, String>)
    requires
        width * row_count <= usize::MAX,
    ensures
        r is Ok <==> bytes@.len() == width * row_count && fixed_width(typid) > 0,
        r matches Ok(c) ==> c@ == spec_fixed_column(typid, bytes@),
        r matches Err(e) ==> e@ == (if bytes@.len() != width * row_count {
            fixed_size_text(bytes@.len(), width as nat, row_count as nat, typid as nat)
        } else {
            fixed_type_text(typid as nat)
        }),
{
    if bytes.len() != width * row_count {
        return Err(fixed_size_message(bytes.len(), width, row_count, typid));
    }
    let ghost fc = fixed_cells(typid, bytes@);
    if typid == INT2_OID {
        Ok(ColumnValues::Int16(fixed_i16(bytes)))
    } else if typid == INT4_OID || typid == DATE_OID {
        let v = to_i32(fixed_u32(bytes, typid));
        proof {
            assert(v@ =~= i32_cells(fc));
        }
        if typid == INT4_OID {
            Ok(ColumnValues::Int32(v))
        } else {
            Ok(ColumnValues::Date32(v))
        }
    } else if typid == FLOAT4_OID {
        Ok(ColumnValues::Float32(fixed_u32(bytes, typid)))
    } else if typid == INT8_OID || typid == TIMESTAMP_OID || typid == TIMESTAMPTZ_OID {
        let v = to_i64(fixed_u64(bytes, typid));
        proof {
            assert(v@ =~= i64_cells(fc));
        }
        if typid == INT8_OID {
            Ok(ColumnValues::Int64(v))
        } else {
            Ok(ColumnValues::TimestampMicros(v))
        }
    } else if typid == FLOAT8_OID {
        Ok(ColumnValues::Float64(fixed_u64(bytes, typid)))
    } else {
        Err(fixed_type_message(typid))
    }
}

proof fn lemma_concat_equal_width(items: Seq<Seq<u8>>, w: int)
    requires
        w > 0,
        forall|i: int| 0 <= i < items.len() ==> #[trigger] items[i].len() == w,
    ensures
        concat_items(items).len() == items.len() * w,
        forall|i: int| 0 <= i < items.len() ==> #[trigger] concat_items(items).subrange(i * w, i * w + w) == items[i],
    decreases items.len(),
{
    if items.len() > 0 {
        let p = items.drop_last();
        lemma_concat_equal_width(p, w);
        let a = concat_items(p);
        let b = concat_items(items);
        let n = items.len() as int;
        assert(b.len() == n * w) by (nonlinear_arith)
            requires b.len() == a.len() + w, a.len() == (n - 1) * w;
        assert forall|i: int| 0 <= i < n implies #[trigger] b.subrange(i * w, i * w + w) == items[i] by {
            if i < n - 1 {
                assert(i * w + w <= (n - 1) * w && 0 <= i * w) by (nonlinear_arith)
                    requires i < n - 1, 0 <= i, w > 0;
                assert(b.subrange(i * w, i * w + w) =~= a.subrange(i * w, i * w + w));
                assert(p[i] == items[i]);
            } else {
                assert(i * w == (n - 1) * w);
                assert(b.subrange(i * w, i * w + w) =~= items.last());
            }
        }
    }
}

/// The fast path decodes exactly what the per-cell path does: for a fixed-width type, the stream
/// of `n` values of that width (back to back) gives the same column as the `n` cells holding them.
pub proof fn lemma_fixed_raw_matches_cells(typid: u32, vals: Seq<Seq<u8>>)
    requires
        fixed_width(typid) > 0,
        forall|i: int| 0 <= i < vals.len() ==> #[trigger] vals[i].len() == fixed_width(typid),
    ensures
        spec_fixed_column(typid, concat_items(vals)) == spec_cells_column(
            typid,
            vals.map_values(|v: Seq<u8>| Some(v)),
        ),
        concat_items(vals).len() == vals.len() * fixed_width(typid),
{
    let w = fixed_width(typid);
    lemma_concat_equal_width(vals, w);
    let b = concat_items(vals);
    assert((vals.len() * w) / w == vals.len()) by (nonlinear_arith)
        requires w > 0;
    assert(fixed_cells(typid, b) =~= vals.map_values(|v: Seq<u8>| Some(v)));
}

} // verus!
