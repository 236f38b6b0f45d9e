use vstd::prelude::*;
use vstd::arithmetic::div_mod::lemma_fundamental_div_mod_converse;

use crate::error::TpqError;

verus! {

/// One RGBA pixel.
pub type Pixel = [u8; 4];

/// A decoded tile: `width × height` RGBA pixels in row-major order.
pub struct RgbaTile {
    pub width: u32,
    pub height: u32,
    pub pixels: Vec<Pixel>,
}

impl RgbaTile {
    /// The pixel buffer holds exactly one pixel per position.
    pub open spec fn wf(&self) -> bool {
        self.pixels@.len() == self.width * self.height
    }
}

/// The assembled raster: `width × height` RGBA pixels in row-major order.
pub struct Mosaic {
    pub width: u32,
    pub height: u32,
    pub pixels: Vec<Pixel>,
}

/// The pixel at mosaic position `(x, y)` when tiles of `mw × mh` pixels are laid out
/// row-major, `long_count` to a row: pixel `(x mod mw, y mod mh)` of the tile at grid
/// cell `(y / mh, x / mw)`.
pub open spec fn tile_pixel(tiles: Seq<Seq<Pixel>>, long_count: int, mw: int, mh: int, x: int, y: int) -> Pixel {
    tiles[(y / mh) * long_count + x / mw][(y % mh) * mw + x % mw]
}

/// The pixels of the mosaic of `lat_count × long_count` tiles of `mw × mh` pixels each,
/// row-major.
pub open spec fn mosaic_of(tiles: Seq<Seq<Pixel>>, lat_count: int, long_count: int, mw: int, mh: int) -> Seq<Pixel> {
    let w = long_count * mw;
    Seq::new(
        (w * (lat_count * mh)) as nat,
        |i: int| tile_pixel(tiles, long_count, mw, mh, i % w, i / w),
    )
}

/// The tile has the declared maplet size.
pub open spec fn tile_fits(t: RgbaTile, mw: int, mh: int) -> bool {
    t.width == mw && t.height == mh
}

/// The mosaic's dimensions fit in `u32` and its pixel count in `usize`.
pub open spec fn mosaic_fits(lat_count: int, long_count: int, mw: int, mh: int) -> bool {
    &&& long_count * mw <= u32::MAX
    &&& lat_count * mh <= u32::MAX
    &&& (long_count * mw) * (lat_count * mh) <= usize::MAX
}

proof fn lemma_cell_index(r: int, c: int, rows: int, cols: int)
    requires
        0 <= r < rows,
        0 <= c < cols,
    ensures
        0 <= r * cols + c < rows * cols,
{
    assert(r * cols + c < rows * cols) by (nonlinear_arith)
        requires
            0 <= r < rows,
            0 <= c < cols,
    ;
    assert(0 <= r * cols) by (nonlinear_arith)
        requires
            0 <= r,
            0 <= c < cols,
    ;
}

proof fn lemma_div_bound(v: int, d: int, n: int)
    requires
        0 <= v < n * d,
        d > 0,
    ensures
        v / d < n,
        0 <= v / d,
        0 <= v % d < d,
{
    let q = v / d;
    let r = v % d;
    vstd::arithmetic::div_mod::lemma_fundamental_div_mod(v, d);
    assert(q < n) by (nonlinear_arith)
        requires
            v == d * q + r,
            0 <= r < d,
            v < n * d,
            d > 0,
    ;
    assert(0 <= q) by (nonlinear_arith)
        requires
            v == d * q + r,
            0 <= v,
            r < d,
            d > 0,
    ;
}

/// Lays `lat_count × long_count` decoded tiles, stored row-major, into one raster of
/// `(long_count·mw) × (lat_count·mh)` pixels, each tile at `(col·mw, row·mh)`.
/// Every position lies in exactly one grid cell, so no background shows through.
/// Fails on the first tile whose size is not `mw × mh`, and when the raster is too large.
pub fn assemble_from_tiles(lat_count: u32, long_count: u32, mw: u32, mh: u32, tiles: &Vec<RgbaTile>) -> (r: Result<Mosaic, TpqError>)
    requires
        tiles@.len() == lat_count * long_count,
        forall|i: int| 0 <= i < tiles@.len() ==> (#[trigger] tiles@[i]).wf(),
    ensures
        (exists|k: int| 0 <= k < tiles@.len() && !tile_fits(#[trigger] tiles@[k], mw as int, mh as int)) ==>
            (r matches Err(TpqError::TileSizeMismatch { tile: k }) && k < tiles@.len()
                && !tile_fits(tiles@[k as int], mw as int, mh as int)
                && forall|j: int| 0 <= j < k ==> tile_fits(#[trigger] tiles@[j], mw as int, mh as int)),
        (forall|k: int| 0 <= k < tiles@.len() ==> tile_fits(#[trigger] tiles@[k], mw as int, mh as int))
            && !mosaic_fits(lat_count as int, long_count as int, mw as int, mh as int)
            ==> r == Err::<Mosaic, TpqError>(TpqError::MosaicTooLarge),
        (forall|k: int| 0 <= k < tiles@.len() ==> tile_fits(#[trigger] tiles@[k], mw as int, mh as int))
            && mosaic_fits(lat_count as int, long_count as int, mw as int, mh as int)
            ==> (r matches Ok(m) && m.width == long_count * mw && m.height == lat_count * mh
                && m.pixels@ == mosaic_of(tiles@.map_values(|t: RgbaTile| t.pixels@),
                    lat_count as int, long_count as int, mw as int, mh as int)),
{
    let mut k: usize = 0;
    while k < tiles.len()
        invariant
            k <= tiles@.len(),
            forall|j: int| 0 <= j < k ==> tile_fits(#[trigger] tiles@[j], mw as int, mh as int),
        decreases tiles@.len() - k,
    {
        if tiles[k].width != mw || tiles[k].height != mh {
            return Err(TpqError::TileSizeMismatch { tile: k });
        }
        k = k + 1;
    }
    proof {
        assert(long_count * mw <= u32::MAX * u32::MAX) by (nonlinear_arith)
            requires
                long_count <= u32::MAX,
                mw <= u32::MAX,
        ;
        assert(lat_count * mh <= u32::MAX * u32::MAX) by (nonlinear_arith)
            requires
                lat_count <= u32::MAX,
                mh <= u32::MAX,
        ;
    }
    let w64: u64 = long_count as u64 * mw as u64;
    let h64: u64 = lat_count as u64 * mh as u64;
    if w64 > u32::MAX as u64 || h64 > u32::MAX as u64 {
        return Err(TpqError::MosaicTooLarge);
    }
    let width: u32 = w64 as u32;
    let height: u32 = h64 as u32;
    assert(w64 * h64 <= u32::MAX * u32::MAX) by (nonlinear_arith)
        requires
            w64 <= u32::MAX,
            h64 <= u32::MAX,
    ;
    let total: u64 = w64 * h64;
    if total > usize::MAX as u64 {
        return Err(TpqError::MosaicTooLarge);
    }
    let ghost views = tiles@.map_values(|t: RgbaTile| t.pixels@);
    let ghost spec_pixels = mosaic_of(views, lat_count as int, long_count as int, mw as int, mh as int);
    let n_tiles: usize = tiles.len();
    assert(spec_pixels.len() == width * height);
    let mut pixels: Vec<Pixel> = Vec::with_capacity(total as usize);
    let mut y: u32 = 0;
    while y < height
        invariant
            y <= height,
            width == long_count * mw,
            height == lat_count * mh,
            width * height <= usize::MAX,
            tiles@.len() == lat_count * long_count,
            n_tiles == tiles@.len(),
            spec_pixels.len() == width * height,
            forall|i: int| 0 <= i < tiles@.len() ==> (#[trigger] tiles@[i]).wf(),
            forall|j: int| 0 <= j < tiles@.len() ==> tile_fits(#[trigger] tiles@[j], mw as int, mh as int),
            views == tiles@.map_values(|t: RgbaTile| t.pixels@),
            spec_pixels == mosaic_of(views, lat_count as int, long_count as int, mw as int, mh as int),
            pixels@ == spec_pixels.subrange(0, y * width),
        decreases height - y,
    {
        proof {
            assert((y + 1) * width <= width * height) by (nonlinear_arith)
                requires
                    y < height,
            ;
        }
        let mut x: u32 = 0;
        while x < width
            invariant
                x <= width,
                y < height,
                width == long_count * mw,
                height == lat_count * mh,
                width * height <= usize::MAX,
                tiles@.len() == lat_count * long_count,
                n_tiles == tiles@.len(),
                spec_pixels.len() == width * height,
            n_tiles == tiles@.len(),
            spec_pixels.len() == width * height,
                forall|i: int| 0 <= i < tiles@.len() ==> (#[trigger] tiles@[i]).wf(),
                forall|j: int| 0 <= j < tiles@.len() ==> tile_fits(#[trigger] tiles@[j], mw as int, mh as int),
                views == tiles@.map_values(|t: RgbaTile| t.pixels@),
                spec_pixels == mosaic_of(views, lat_count as int, long_count as int, mw as int, mh as int),
                (y + 1) * width <= width * height,
                pixels@ == spec_pixels.subrange(0, y * width + x),
            decreases width - x,
        {
            proof {
                assert(mw > 0 && mh > 0 && long_count > 0 && lat_count > 0) by (nonlinear_arith)
                    requires
                        x < width,
                        y < height,
                        width == long_count * mw,
                        height == lat_count * mh,
                ;
                assert(mh * mw <= width * height) by (nonlinear_arith)
                    requires
                        long_count >= 1,
                        lat_count >= 1,
                        width == long_count * mw,
                        height == lat_count * mh,
                ;
                lemma_div_bound(x as int, mw as int, long_count as int);
                lemma_div_bound(y as int, mh as int, lat_count as int);
                lemma_cell_index((y / mh) as int, (x / mw) as int, lat_count as int, long_count as int);
                lemma_cell_index((y % mh) as int, (x % mw) as int, mh as int, mw as int);
                lemma_cell_index(y as int, x as int, height as int, width as int);
            }
            let cell: usize = (y / mh) as usize * long_count as usize + (x / mw) as usize;
            let within: usize = (y % mh) as usize * mw as usize + (x % mw) as usize;
            let p: Pixel = tiles[cell].pixels[within];
            proof {
                let i = y * width + x;
                lemma_fundamental_div_mod_converse(i as int, width as int, y as int, x as int);
                assert(spec_pixels[i as int] == p);
            }
            pixels.push(p);
            x = x + 1;
            proof {
                assert(pixels@ =~= spec_pixels.subrange(0, y * width + x));
            }
        }
        assert(y * width + width == (y + 1) * width) by (nonlinear_arith);
        y = y + 1;
    }
    assert(y * width == width * height) by (nonlinear_arith)
        requires
            y == height,
    ;
    assert(pixels@ =~= spec_pixels);
    Ok(Mosaic { width, height, pixels })
}

/// The assembled mosaic has exactly `(long_count·mw) × (lat_count·mh)` pixels.
pub proof fn lemma_mosaic_dimensions(tiles: Seq<Seq<Pixel>>, lat_count: nat, long_count: nat, mw: nat, mh: nat)
    ensures
        mosaic_of(tiles, lat_count as int, long_count as int, mw as int, mh as int).len()
            == (long_count * mw) * (lat_count * mh),
{
    assert((long_count * mw) * (lat_count * mh) >= 0) by (nonlinear_arith);
}

/// The mosaic pixel at `(col·mw, row·mh)` is the top-left pixel of the tile at
/// directory position `row·long_count + col`.
pub proof fn lemma_tile_origin(tiles: Seq<Seq<Pixel>>, lat_count: nat, long_count: nat, mw: nat, mh: nat, row: nat, col: nat)
    requires
        row < lat_count,
        col < long_count,
        mw > 0,
        mh > 0,
    ensures
        ({
            let w = long_count * mw;
            let i = ((row * mh) * w + col * mw) as int;
            &&& 0 <= i < mosaic_of(tiles, lat_count as int, long_count as int, mw as int, mh as int).len()
            &&& mosaic_of(tiles, lat_count as int, long_count as int, mw as int, mh as int)[i]
                == tiles[(row * long_count + col) as int][0]
        }),
{
    let w = (long_count * mw) as int;
    let h = (lat_count * mh) as int;
    let x = (col * mw) as int;
    let y = (row * mh) as int;
    assert(x < w && 0 <= x) by (nonlinear_arith)
        requires
            col < long_count,
            mw > 0,
            x == col * mw,
            w == long_count * mw,
    ;
    assert(y < h && 0 <= y) by (nonlinear_arith)
        requires
            row < lat_count,
            mh > 0,
            y == row * mh,
            h == lat_count * mh,
    ;
    lemma_cell_index(y, x, h, w);
    assert(h * w == w * h) by (nonlinear_arith);
    let i = y * w + x;
    lemma_fundamental_div_mod_converse(i, w, y, x);
    lemma_fundamental_div_mod_converse(y, mh as int, row as int, 0);
    lemma_fundamental_div_mod_converse(x, mw as int, col as int, 0);
    assert(row * mh * mw == 0 + row * mh * mw);
    assert((0 * mw + 0) == 0) by (nonlinear_arith);
}

} // verus!
