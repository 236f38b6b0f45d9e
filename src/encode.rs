use vstd::prelude::*;
use vstd::bytes::{
    lemma_auto_spec_u32_to_from_le_bytes, lemma_auto_spec_u64_to_from_le_bytes, spec_u32_to_le_bytes,
    spec_u64_to_le_bytes, u32_to_le_bytes, u64_to_le_bytes,
};

use crate::header::{numeric_fields_of, TpqHeader, HEADER_LEN};

verus! {

/// `b` with the bytes from `at` on replaced by `s`.
pub open spec fn splice(b: Seq<u8>, at: int, s: Seq<u8>) -> Seq<u8> {
    b.subrange(0, at) + s + b.subrange(at + s.len(), b.len() as int)
}

/// `b` with the little-endian bytes of `x` stored at `at`.
pub open spec fn put_u32(b: Seq<u8>, at: int, x: u32) -> Seq<u8> {
    splice(b, at, spec_u32_to_le_bytes(x))
}

/// `b` with the little-endian bytes of `x` stored at `at`.
pub open spec fn put_u64(b: Seq<u8>, at: int, x: u64) -> Seq<u8> {
    splice(b, at, spec_u64_to_le_bytes(x))
}

/// `b` with every numeric header field of `h` stored at its place in the layout;
/// the text fields, the reserved field and everything after the header are left alone.
pub open spec fn with_numeric_fields(h: TpqHeader, b: Seq<u8>) -> Seq<u8> {
    let b1 = put_u32(b, 0, h.version);
    let b2 = put_u64(b1, 4, h.w_long_bits);
    let b3 = put_u64(b2, 12, h.n_lat_bits);
    let b4 = put_u64(b3, 20, h.e_long_bits);
    let b5 = put_u64(b4, 28, h.s_lat_bits);
    let b6 = put_u32(b5, 484, h.color_depth);
    let b7 = put_u32(b6, 492, h.long_count);
    let b8 = put_u32(b7, 496, h.lat_count);
    let b9 = put_u32(b8, 500, h.maplet_width);
    put_u32(b9, 504, h.maplet_height)
}

proof fn lemma_splice(b: Seq<u8>, at: int, s: Seq<u8>)
    requires
        0 <= at,
        at + s.len() <= b.len(),
    ensures
        splice(b, at, s).len() == b.len(),
        splice(b, at, s).subrange(at, at + s.len()) == s,
        forall|p: int, q: int|
            0 <= p <= q <= b.len() && (q <= at || p >= at + s.len())
                ==> #[trigger] splice(b, at, s).subrange(p, q) == b.subrange(p, q),
{
    let r = splice(b, at, s);
    assert(r.subrange(at, at + s.len()) =~= s);
    assert forall|p: int, q: int|
        0 <= p <= q <= b.len() && (q <= at || p >= at + s.len()) implies #[trigger] r.subrange(p, q)
        == b.subrange(p, q) by {
        assert(r.subrange(p, q) =~= b.subrange(p, q));
    }
}

proof fn lemma_splice_same(b: Seq<u8>, at: int, n: int)
    requires
        0 <= at,
        0 <= n,
        at + n <= b.len(),
    ensures
        splice(b, at, b.subrange(at, at + n)) == b,
{
    assert(splice(b, at, b.subrange(at, at + n)) =~= b);
}

/// Stores `bytes` into `buf` from position `at` on.
fn write_bytes(buf: &mut Vec<u8>, at: usize, bytes: &Vec<u8>)
    requires
        at + bytes@.len() <= old(buf)@.len(),
    ensures
        final(buf)@ == splice(old(buf)@, at as int, bytes@),
{
    let len: usize = buf.len();
    let mut i: usize = 0;
    while i < bytes.len()
        invariant
            i <= bytes@.len(),
            buf@.len() == len,
            at + bytes@.len() <= buf@.len(),
            buf@.len() == old(buf)@.len(),
            forall|j: int| at <= j < at + i ==> buf@[j] == bytes@[j - at],
            forall|j: int| 0 <= j < buf@.len() && !(at <= j < at + i) ==> buf@[j] == old(buf)@[j],
        decreases bytes@.len() - i,
    {
        buf.set(at + i, bytes[i]);
        i = i + 1;
    }
    assert(buf@ =~= splice(old(buf)@, at as int, bytes@));
}

/// Stores the numeric header fields of `h` into `buf` at their places in the header
/// layout. The `f64` corners are written from their bit patterns, so nothing is lost.
pub fn write_numeric_fields(h: &TpqHeader, buf: &mut Vec<u8>)
    requires
        old(buf)@.len() >= HEADER_LEN,
    ensures
        final(buf)@ == with_numeric_fields(*h, old(buf)@),
{
    proof {
        lemma_auto_spec_u32_to_from_le_bytes();
        lemma_auto_spec_u64_to_from_le_bytes();
    }
    write_bytes(buf, 0, &u32_to_le_bytes(h.version));
    write_bytes(buf, 4, &u64_to_le_bytes(h.w_long_bits));
    write_bytes(buf, 12, &u64_to_le_bytes(h.n_lat_bits));
    write_bytes(buf, 20, &u64_to_le_bytes(h.e_long_bits));
    write_bytes(buf, 28, &u64_to_le_bytes(h.s_lat_bits));
    write_bytes(buf, 484, &u32_to_le_bytes(h.color_depth));
    write_bytes(buf, 492, &u32_to_le_bytes(h.long_count));
    write_bytes(buf, 496, &u32_to_le_bytes(h.lat_count));
    write_bytes(buf, 500, &u32_to_le_bytes(h.maplet_width));
    write_bytes(buf, 504, &u32_to_le_bytes(h.maplet_height));
}

/// Encoding the numeric fields of a header and decoding them again gives the same
/// values, bit for bit; and re-encoding the numeric fields decoded from a buffer
/// leaves that buffer unchanged.
pub proof fn lemma_numeric_round_trip(h: TpqHeader, b: Seq<u8>)
    requires
        b.len() >= HEADER_LEN,
    ensures
        numeric_fields_of(h, with_numeric_fields(h, b)),
        numeric_fields_of(h, b) ==> with_numeric_fields(h, b) == b,
{
    lemma_auto_spec_u32_to_from_le_bytes();
    lemma_auto_spec_u64_to_from_le_bytes();
    let b1 = put_u32(b, 0, h.version);
    lemma_splice(b, 0, spec_u32_to_le_bytes(h.version));
    let b2 = put_u64(b1, 4, h.w_long_bits);
    lemma_splice(b1, 4, spec_u64_to_le_bytes(h.w_long_bits));
    let b3 = put_u64(b2, 12, h.n_lat_bits);
    lemma_splice(b2, 12, spec_u64_to_le_bytes(h.n_lat_bits));
    let b4 = put_u64(b3, 20, h.e_long_bits);
    lemma_splice(b3, 20, spec_u64_to_le_bytes(h.e_long_bits));
    let b5 = put_u64(b4, 28, h.s_lat_bits);
    lemma_splice(b4, 28, spec_u64_to_le_bytes(h.s_lat_bits));
    let b6 = put_u32(b5, 484, h.color_depth);
    lemma_splice(b5, 484, spec_u32_to_le_bytes(h.color_depth));
    let b7 = put_u32(b6, 492, h.long_count);
    lemma_splice(b6, 492, spec_u32_to_le_bytes(h.long_count));
    let b8 = put_u32(b7, 496, h.lat_count);
    lemma_splice(b7, 496, spec_u32_to_le_bytes(h.lat_count));
    let b9 = put_u32(b8, 500, h.maplet_width);
    lemma_splice(b8, 500, spec_u32_to_le_bytes(h.maplet_width));
    let b10 = put_u32(b9, 504, h.maplet_height);
    lemma_splice(b9, 504, spec_u32_to_le_bytes(h.maplet_height));
    if numeric_fields_of(h, b) {
        lemma_splice_same(b, 0, 4);
        lemma_splice_same(b, 4, 8);
        lemma_splice_same(b, 12, 8);
        lemma_splice_same(b, 20, 8);
        lemma_splice_same(b, 28, 8);
        lemma_splice_same(b, 484, 4);
        lemma_splice_same(b, 492, 4);
        lemma_splice_same(b, 496, 4);
        lemma_splice_same(b, 500, 4);
        lemma_splice_same(b, 504, 4);
    }
}

} // verus!
