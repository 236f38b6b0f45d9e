use vstd::prelude::*;

use crate::directory::{directory_entry, directory_fits, read_tile_directory, tile_bytes, tile_source};
use crate::error::TpqError;
use crate::header::TpqHeader;
use crate::mosaic::{assemble_from_tiles, mosaic_fits, mosaic_of, Mosaic, Pixel, RgbaTile};

verus! {

/// What the `image` crate's JPEG decoder makes of a byte sequence, as
/// `(width, height, row-major RGBA pixels)`, or `None` where it fails.
pub uninterp spec fn jpeg_rgba_of(b: Seq<u8>) -> Option<(u32, u32, Seq<Pixel>)>;

/// Relies on `image::io::Reader::decode` with the JPEG format, converted with
/// `DynamicImage::to_rgba8`: the result depends on the bytes alone, and an RGBA
/// buffer holds one pixel per position.
#[verifier::external_body]
fn decode_jpeg(b: &[u8]) -> (r: Option<RgbaTile>)
    ensures
        match r {
            Some(t) => jpeg_rgba_of(b@) == Some((t.width, t.height, t.pixels@)) && t.wf(),
            None => jpeg_rgba_of(b@) is None,
        },
{
    let reader = image::io::Reader::with_format(std::io::Cursor::new(b), image::ImageFormat::Jpeg);
    match reader.decode() {
        Ok(img) => {
            let rgba = img.to_rgba8();
            Some(RgbaTile { width: rgba.width(), height: rgba.height(), pixels: rgba.pixels().map(|p| p.0).collect() })
        },
        Err(_) => None,
    }
}

/// Tile `i`'s offset lies within the input and its bytes decode as a JPEG image.
pub open spec fn tile_decodes(b: Seq<u8>, i: int) -> bool {
    directory_entry(b, i) <= b.len() && jpeg_rgba_of(tile_source(b, i)) is Some
}

/// The decoded image of tile `i`.
pub open spec fn decoded_tile(b: Seq<u8>, i: int) -> (u32, u32, Seq<Pixel>) {
    jpeg_rgba_of(tile_source(b, i))->Some_0
}

/// The error for tile `i` when it does not decode.
pub open spec fn tile_error(b: Seq<u8>, i: int) -> TpqError {
    if directory_entry(b, i) > b.len() {
        TpqError::TruncatedInput
    } else {
        TpqError::TileDecodeFailure { tile: i as usize }
    }
}

/// Tile `k` is the first of the `n` tiles that does not decode.
pub open spec fn first_bad_tile(b: Seq<u8>, n: int, k: int) -> bool {
    &&& 0 <= k < n
    &&& !tile_decodes(b, k)
    &&& forall|j: int| 0 <= j < k ==> tile_decodes(b, j)
}

/// Decodes the `lat_count × long_count` tiles named by the directory, in directory order.
pub fn decode_tiles(data: &[u8], lat_count: u32, long_count: u32) -> (r: Result<Vec<RgbaTile>, TpqError>)
    ensures
        !directory_fits(data@, lat_count as int, long_count as int)
            ==> r == Err::<Vec<RgbaTile>, TpqError>(TpqError::TruncatedInput),
        directory_fits(data@, lat_count as int, long_count as int)
            && (exists|k: int| 0 <= k < lat_count * long_count && !tile_decodes(data@, k))
            ==> (r matches Err(e) && exists|k: int| first_bad_tile(data@, lat_count * long_count, k)
                && e == tile_error(data@, k)),
        directory_fits(data@, lat_count as int, long_count as int)
            && (forall|k: int| 0 <= k < lat_count * long_count ==> tile_decodes(data@, k))
            ==> (r matches Ok(v) && v@.len() == lat_count * long_count
                && forall|i: int| 0 <= i < v@.len() ==> (#[trigger] v@[i]).wf()
                    && (v@[i].width, v@[i].height, v@[i].pixels@) == decoded_tile(data@, i)),
{
    let offsets = read_tile_directory(data, lat_count, long_count)?;
    let mut tiles: Vec<RgbaTile> = Vec::new();
    let mut i: usize = 0;
    while i < offsets.len()
        invariant
            i <= offsets@.len(),
            offsets@.len() == lat_count * long_count,
            directory_fits(data@, lat_count as int, long_count as int),
            forall|j: int| 0 <= j < offsets@.len() ==> #[trigger] offsets@[j] == directory_entry(data@, j),
            tiles@.len() == i,
            forall|j: int| 0 <= j < i ==> tile_decodes(data@, j),
            forall|j: int| 0 <= j < i ==> (#[trigger] tiles@[j]).wf()
                && (tiles@[j].width, tiles@[j].height, tiles@[j].pixels@) == decoded_tile(data@, j),
        decreases offsets@.len() - i,
    {
        let src = match tile_bytes(data, offsets[i]) {
            Ok(s) => s,
            Err(e) => {
                assert(first_bad_tile(data@, lat_count * long_count, i as int) && e == tile_error(
                    data@,
                    i as int,
                ));
                return Err(e);
            },
        };
        match decode_jpeg(src) {
            Some(t) => tiles.push(t),
            None => {
                assert(first_bad_tile(data@, lat_count * long_count, i as int) && tile_error(
                    data@,
                    i as int,
                ) == TpqError::TileDecodeFailure { tile: i });
                return Err(TpqError::TileDecodeFailure { tile: i });
            },
        }
        i = i + 1;
    }
    Ok(tiles)
}

/// The decoded tile `k` has the header's maplet size.
pub open spec fn decoded_fits(b: Seq<u8>, k: int, mw: int, mh: int) -> bool {
    decoded_tile(b, k).0 == mw && decoded_tile(b, k).1 == mh
}

/// The pixel contents of the `n` decoded tiles, in directory order.
pub open spec fn decoded_pixels(b: Seq<u8>, n: int) -> Seq<Seq<Pixel>> {
    Seq::new(n as nat, |i: int| decoded_tile(b, i).2)
}

/// The directory fits and every tile decodes.
pub open spec fn all_tiles_decode(b: Seq<u8>, h: TpqHeader) -> bool {
    &&& directory_fits(b, h.lat_count as int, h.long_count as int)
    &&& forall|k: int| 0 <= k < h.lat_count * h.long_count ==> tile_decodes(b, k)
}

/// Every tile decodes to the header's maplet size.
pub open spec fn all_tiles_fit(b: Seq<u8>, h: TpqHeader) -> bool {
    &&& all_tiles_decode(b, h)
    &&& forall|k: int| 0 <= k < h.lat_count * h.long_count
        ==> decoded_fits(b, k, h.maplet_width as int, h.maplet_height as int)
}

/// Builds the mosaic of a TPQ container whose header is `h`: reads the tile directory,
/// decodes every tile, and lays each at its grid cell using the header's maplet size.
pub fn build_mosaic(data: &[u8], h: &TpqHeader) -> (r: Result<Mosaic, TpqError>)
    ensures
        !directory_fits(data@, h.lat_count as int, h.long_count as int)
            ==> r == Err::<Mosaic, TpqError>(TpqError::TruncatedInput),
        directory_fits(data@, h.lat_count as int, h.long_count as int)
            && (exists|k: int| 0 <= k < h.lat_count * h.long_count && !tile_decodes(data@, k))
            ==> (r matches Err(e) && exists|k: int| first_bad_tile(data@, h.lat_count * h.long_count, k)
                && e == tile_error(data@, k)),
        all_tiles_decode(data@, *h) && (exists|k: int| 0 <= k < h.lat_count * h.long_count
            && !decoded_fits(data@, k, h.maplet_width as int, h.maplet_height as int))
            ==> (r matches Err(TpqError::TileSizeMismatch { tile: k }) && k < h.lat_count * h.long_count
                && !decoded_fits(data@, k as int, h.maplet_width as int, h.maplet_height as int)
                && forall|j: int| 0 <= j < k ==> decoded_fits(data@, j, h.maplet_width as int, h.maplet_height as int)),
        all_tiles_fit(data@, *h) && !mosaic_fits(h.lat_count as int, h.long_count as int,
            h.maplet_width as int, h.maplet_height as int)
            ==> r == Err::<Mosaic, TpqError>(TpqError::MosaicTooLarge),
        all_tiles_fit(data@, *h) && mosaic_fits(h.lat_count as int, h.long_count as int,
            h.maplet_width as int, h.maplet_height as int)
            ==> (r matches Ok(m) && m.width == h.long_count * h.maplet_width
                && m.height == h.lat_count * h.maplet_height
                && m.pixels@ == mosaic_of(decoded_pixels(data@, h.lat_count * h.long_count),
                    h.lat_count as int, h.long_count as int, h.maplet_width as int, h.maplet_height as int)),
{
    let tiles = match decode_tiles(data, h.lat_count, h.long_count) {
        Ok(t) => t,
        Err(e) => return Err(e),
    };
    let r = assemble_from_tiles(h.lat_count, h.long_count, h.maplet_width, h.maplet_height, &tiles);
    proof {
        let n = h.lat_count * h.long_count;
        let (mw, mh) = (h.maplet_width as int, h.maplet_height as int);
        assert forall|k: int| 0 <= k < n implies (crate::mosaic::tile_fits(#[trigger] tiles@[k], mw, mh)
            <==> decoded_fits(data@, k, mw, mh)) by {}
        if exists|k: int| 0 <= k < n && !decoded_fits(data@, k, mw, mh) {
            let k = choose|k: int| 0 <= k < n && !decoded_fits(data@, k, mw, mh);
            assert(!crate::mosaic::tile_fits(tiles@[k], mw, mh));
        }
        if r is Err && r->Err_0 is TileSizeMismatch {
            let tile = r->Err_0->TileSizeMismatch_tile;
            assert forall|j: int| 0 <= j < tile implies decoded_fits(data@, j, mw, mh) by {
                assert(crate::mosaic::tile_fits(tiles@[j], mw, mh));
            }
        }
        if all_tiles_fit(data@, *h) {
            assert(tiles@.map_values(|t: RgbaTile| t.pixels@) =~= decoded_pixels(data@, n));
        }
    }
    r
}

} // verus!
