use vstd::prelude::*;
use vstd::bytes::{spec_u32_from_le_bytes, spec_u64_from_le_bytes, u32_from_le_bytes, u64_from_le_bytes};
use vstd::slice::slice_subrange;

use crate::error::TpqError;

verus! {

/// The little-endian `u32` stored at byte `at` of `b`.
pub open spec fn u32_at(b: Seq<u8>, at: int) -> u32 {
    spec_u32_from_le_bytes(b.subrange(at, at + 4))
}

/// The little-endian `u64` stored at byte `at` of `b`.
pub open spec fn u64_at(b: Seq<u8>, at: int) -> u64 {
    spec_u64_from_le_bytes(b.subrange(at, at + 8))
}

/// Reads the little-endian `u32` at the cursor and advances the cursor past it.
pub fn read_tpq_u32(data: &[u8], pos: &mut usize) -> (r: Result<u32, TpqError>)
    ensures
        *old(pos) + 4 <= data@.len() ==> r == Ok::<u32, TpqError>(u32_at(data@, *old(pos) as int))
            && *final(pos) == *old(pos) + 4,
        *old(pos) + 4 > data@.len() ==> r == Err::<u32, TpqError>(TpqError::TruncatedInput)
            && *final(pos) == *old(pos),
{
    if *pos > data.len() || data.len() - *pos < 4 {
        return Err(TpqError::TruncatedInput);
    }
    let field = slice_subrange(data, *pos, *pos + 4);
    let v = u32_from_le_bytes(field);
    *pos = *pos + 4;
    Ok(v)
}

/// Reads the little-endian `u64` at the cursor and advances the cursor past it.
/// Floating-point fields are carried as their IEEE-754 bit patterns.
pub fn read_tpq_u64(data: &[u8], pos: &mut usize) -> (r: Result<u64, TpqError>)
    ensures
        *old(pos) + 8 <= data@.len() ==> r == Ok::<u64, TpqError>(u64_at(data@, *old(pos) as int))
            && *final(pos) == *old(pos) + 8,
        *old(pos) + 8 > data@.len() ==> r == Err::<u64, TpqError>(TpqError::TruncatedInput)
            && *final(pos) == *old(pos),
{
    if *pos > data.len() || data.len() - *pos < 8 {
        return Err(TpqError::TruncatedInput);
    }
    let field = slice_subrange(data, *pos, *pos + 8);
    let v = u64_from_le_bytes(field);
    *pos = *pos + 8;
    Ok(v)
}

/// Index of the first null byte of `s`, or `s.len()` if it holds none.
pub open spec fn null_index(s: Seq<u8>) -> nat
    decreases s.len(),
{
    if s.len() == 0 {
        0
    } else if s[0] == 0 {
        0
    } else {
        1 + null_index(s.drop_first())
    }
}

/// The text of a fixed-capacity field: its bytes up to the first null.
pub open spec fn text_of(s: Seq<u8>) -> Seq<u8> {
    s.subrange(0, null_index(s) as int)
}

/// `k` is where the text of `s` ends: no null before it, and a null or the end at it.
pub proof fn lemma_null_index_unique(s: Seq<u8>, k: int)
    requires
        0 <= k <= s.len(),
        forall|j: int| 0 <= j < k ==> s[j] != 0,
        k == s.len() || s[k] == 0,
    ensures
        null_index(s) == k,
    decreases k,
{
    if k > 0 {
        lemma_null_index_unique(s.drop_first(), k - 1);
    }
}

/// A text field whose first null byte is at `k` decodes to exactly its first `k` bytes.
pub proof fn lemma_text_stops_at_null(s: Seq<u8>, k: int)
    requires
        0 <= k < s.len(),
        s[k] == 0,
        forall|j: int| 0 <= j < k ==> s[j] != 0,
    ensures
        text_of(s) == s.subrange(0, k),
{
    lemma_null_index_unique(s, k);
}

/// A text field with no null byte decodes to all of its bytes.
pub proof fn lemma_text_without_null(s: Seq<u8>)
    requires
        forall|j: int| 0 <= j < s.len() ==> s[j] != 0,
    ensures
        text_of(s) == s,
{
    lemma_null_index_unique(s, s.len() as int);
    assert(s.subrange(0, s.len() as int) =~= s);
}

/// The bytes of a fixed-capacity text field up to its first null byte.
pub fn text_bytes(field: &[u8]) -> (r: Vec<u8>)
    ensures
        r@ == text_of(field@),
{
    let mut out: Vec<u8> = Vec::new();
    let mut i: usize = 0;
    while i < field.len() && field[i] != 0
        invariant
            i <= field@.len(),
            out@ == field@.subrange(0, i as int),
            forall|j: int| 0 <= j < i ==> field@[j] != 0,
        decreases field@.len() - i,
    {
        out.push(field[i]);
        i = i + 1;
        assert(out@ =~= field@.subrange(0, i as int));
    }
    proof {
        lemma_null_index_unique(field@, i as int);
    }
    out
}

/// Reads a text field of `cap` bytes at the cursor and advances the cursor past it.
pub fn read_tpq_string(data: &[u8], pos: &mut usize, cap: usize) -> (r: Result<String, TpqError>)
    ensures
        *old(pos) + cap <= data@.len() ==> (r matches Ok(t) && t@ == lossy_text_of(
            text_of(data@.subrange(*old(pos) as int, *old(pos) + cap)),
        )) && *final(pos) == *old(pos) + cap,
        *old(pos) + cap > data@.len() ==> r == Err::<String, TpqError>(TpqError::TruncatedInput)
            && *final(pos) == *old(pos),
{
    if *pos > data.len() || data.len() - *pos < cap {
        return Err(TpqError::TruncatedInput);
    }
    let field = slice_subrange(data, *pos, *pos + cap);
    let text = text_bytes(field);
    *pos = *pos + cap;
    Ok(lossy_text(&text))
}

/// What `String::from_utf8_lossy` makes of a byte sequence.
pub uninterp spec fn lossy_text_of(b: Seq<u8>) -> Seq<char>;

/// Relies on `String::from_utf8_lossy`: a function of the bytes alone, with
/// malformed sequences replaced; no bytes give no characters.
#[verifier::external_body]
fn lossy_text(b: &Vec<u8>) -> (r: String)
    ensures
        r@ == lossy_text_of(b@),
        b@.len() == 0 ==> r@.len() == 0,
{
    String::from_utf8_lossy(b).into_owned()
}

/// Byte capacities of the text fields, in the order they are stored.
pub const TOPO_CAP: usize = 220;
pub const QUAD_NAME_CAP: usize = 128;
pub const STATE_NAME_CAP: usize = 32;
pub const SOURCE_CAP: usize = 32;
pub const YEAR_CAP: usize = 4;
pub const CONTOUR_CAP: usize = 24;
pub const EXTENSION_CAP: usize = 4;

/// Number of bytes the header fields occupy at the start of the file.
pub const HEADER_LEN: usize = 508;

/// Where the tile directory starts: the header region is this long.
pub const DIRECTORY_OFFSET: usize = 1024;

/// The decoded header of a TPQ container.
/// The four corner coordinates are degrees, held as IEEE-754 `f64` bit patterns.
pub struct TpqHeader {
    pub version: u32,
    pub w_long_bits: u64,
    pub n_lat_bits: u64,
    pub e_long_bits: u64,
    pub s_lat_bits: u64,
    pub topo: String,
    pub quad_name: String,
    pub state_name: String,
    pub source: String,
    pub year1: String,
    pub year2: String,
    pub contour: String,
    pub extension: String,
    pub color_depth: u32,
    pub long_count: u32,
    pub lat_count: u32,
    pub maplet_width: u32,
    pub maplet_height: u32,
}

/// The decoded text of the field of capacity `cap` at byte `at` of `b`.
pub open spec fn text_at(b: Seq<u8>, at: int, cap: int) -> Seq<char> {
    lossy_text_of(text_of(b.subrange(at, at + cap)))
}

/// The numeric fields of `h` are those stored in `b` at the header layout's positions.
pub open spec fn numeric_fields_of(h: TpqHeader, b: Seq<u8>) -> bool {
    &&& h.version == u32_at(b, 0)
    &&& h.w_long_bits == u64_at(b, 4)
    &&& h.n_lat_bits == u64_at(b, 12)
    &&& h.e_long_bits == u64_at(b, 20)
    &&& h.s_lat_bits == u64_at(b, 28)
    &&& h.color_depth == u32_at(b, 484)
    &&& h.long_count == u32_at(b, 492)
    &&& h.lat_count == u32_at(b, 496)
    &&& h.maplet_width == u32_at(b, 500)
    &&& h.maplet_height == u32_at(b, 504)
}

/// The text fields of `h` are those stored in `b` at the header layout's positions.
pub open spec fn text_fields_of(h: TpqHeader, b: Seq<u8>) -> bool {
    &&& h.topo@ == text_at(b, 36, 220)
    &&& h.quad_name@ == text_at(b, 256, 128)
    &&& h.state_name@ == text_at(b, 384, 32)
    &&& h.source@ == text_at(b, 416, 32)
    &&& h.year1@ == text_at(b, 448, 4)
    &&& h.year2@ == text_at(b, 452, 4)
    &&& h.contour@ == text_at(b, 456, 24)
    &&& h.extension@ == text_at(b, 480, 4)
}

/// `h` is the header stored at the start of `b`.
pub open spec fn header_of(h: TpqHeader, b: Seq<u8>) -> bool {
    numeric_fields_of(h, b) && text_fields_of(h, b)
}

/// Decodes the header at the start of `data`. The 32-bit field after `color_depth`
/// is reserved and skipped.
pub fn read_tpq_header(data: &[u8]) -> (r: Result<TpqHeader, TpqError>)
    ensures
        data@.len() >= HEADER_LEN ==> (r matches Ok(h) && header_of(h, data@)),
        data@.len() < HEADER_LEN ==> r == Err::<TpqHeader, TpqError>(TpqError::TruncatedInput),
{
    let mut pos: usize = 0;
    let version = read_tpq_u32(data, &mut pos)?;
    let w_long_bits = read_tpq_u64(data, &mut pos)?;
    let n_lat_bits = read_tpq_u64(data, &mut pos)?;
    let e_long_bits = read_tpq_u64(data, &mut pos)?;
    let s_lat_bits = read_tpq_u64(data, &mut pos)?;
    let topo = read_tpq_string(data, &mut pos, TOPO_CAP)?;
    let quad_name = read_tpq_string(data, &mut pos, QUAD_NAME_CAP)?;
    let state_name = read_tpq_string(data, &mut pos, STATE_NAME_CAP)?;
    let source = read_tpq_string(data, &mut pos, SOURCE_CAP)?;
    let year1 = read_tpq_string(data, &mut pos, YEAR_CAP)?;
    let year2 = read_tpq_string(data, &mut pos, YEAR_CAP)?;
    let contour = read_tpq_string(data, &mut pos, CONTOUR_CAP)?;
    let extension = read_tpq_string(data, &mut pos, EXTENSION_CAP)?;
    let color_depth = read_tpq_u32(data, &mut pos)?;
    let _reserved = read_tpq_u32(data, &mut pos)?;
    let long_count = read_tpq_u32(data, &mut pos)?;
    let lat_count = read_tpq_u32(data, &mut pos)?;
    let maplet_width = read_tpq_u32(data, &mut pos)?;
    let maplet_height = read_tpq_u32(data, &mut pos)?;
    Ok(TpqHeader {
        version,
        w_long_bits,
        n_lat_bits,
        e_long_bits,
        s_lat_bits,
        topo,
        quad_name,
        state_name,
        source,
        year1,
        year2,
        contour,
        extension,
        color_depth,
        long_count,
        lat_count,
        maplet_width,
        maplet_height,
    })
}

} // verus!
