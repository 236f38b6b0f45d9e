use vstd::prelude::*;

use crate::error::TpqError;
use crate::header::{read_tpq_u32, u32_at, DIRECTORY_OFFSET};

verus! {

/// The tile directory of `lat_count × long_count` entries fits in the input.
pub open spec fn directory_fits(b: Seq<u8>, lat_count: int, long_count: int) -> bool {
    DIRECTORY_OFFSET + 4 * (lat_count * long_count) <= b.len()
}

/// Entry `i` of the tile directory: the absolute byte offset of tile `i`.
pub open spec fn directory_entry(b: Seq<u8>, i: int) -> u32 {
    u32_at(b, DIRECTORY_OFFSET + 4 * i)
}

/// Reads the row-major directory of `lat_count × long_count` tile offsets that starts
/// right after the header region.
pub fn read_tile_directory(data: &[u8], lat_count: u32, long_count: u32) -> (r: Result<Vec<u32>, TpqError>)
    ensures
        directory_fits(data@, lat_count as int, long_count as int) ==> (r matches Ok(v)
            && v@.len() == lat_count * long_count
            && forall|i: int| 0 <= i < v@.len() ==> #[trigger] v@[i] == directory_entry(data@, i)),
        !directory_fits(data@, lat_count as int, long_count as int)
            ==> r == Err::<Vec<u32>, TpqError>(TpqError::TruncatedInput),
{
    assert(lat_count * long_count <= u32::MAX * u32::MAX) by (nonlinear_arith)
        requires
            lat_count <= u32::MAX,
            long_count <= u32::MAX,
    ;
    let count: u64 = lat_count as u64 * long_count as u64;
    if data.len() < DIRECTORY_OFFSET {
        return Err(TpqError::TruncatedInput);
    }
    let room: u64 = ((data.len() - DIRECTORY_OFFSET) / 4) as u64;
    if room < count {
        return Err(TpqError::TruncatedInput);
    }
    let n: usize = count as usize;
    let mut offsets: Vec<u32> = Vec::with_capacity(n);
    let mut pos: usize = DIRECTORY_OFFSET;
    let mut i: usize = 0;
    while i < n
        invariant
            i <= n,
            n == lat_count * long_count,
            DIRECTORY_OFFSET + 4 * n <= data@.len(),
            pos == DIRECTORY_OFFSET + 4 * i,
            offsets@.len() == i,
            forall|j: int| 0 <= j < i ==> #[trigger] offsets@[j] == directory_entry(data@, j),
        decreases n - i,
    {
        let off = read_tpq_u32(data, &mut pos);
        match off {
            Ok(v) => offsets.push(v),
            Err(e) => return Err(e),
        }
        i = i + 1;
    }
    Ok(offsets)
}

/// The bytes of tile `i`: everything from its recorded offset to the end of the input.
pub open spec fn tile_source(b: Seq<u8>, i: int) -> Seq<u8> {
    b.subrange(directory_entry(b, i) as int, b.len() as int)
}

/// The input from `offset` to its end, or `TruncatedInput` when `offset` lies past the end.
pub fn tile_bytes(data: &[u8], offset: u32) -> (r: Result<&[u8], TpqError>)
    ensures
        offset <= data@.len() ==> (r matches Ok(s) && s@ == data@.subrange(offset as int, data@.len() as int)),
        offset > data@.len() ==> r == Err::<&[u8], TpqError>(TpqError::TruncatedInput),
{
    if offset as u64 > data.len() as u64 {
        return Err(TpqError::TruncatedInput);
    }
    Ok(vstd::slice::slice_subrange(data, offset as usize, data.len()))
}

} // verus!
