use vstd::prelude::*;

verus! {

/// What can go wrong while turning a TPQ container into a mosaic.
#[derive(Debug, Clone, Copy, PartialEq, Eq, Structural)]
pub enum TpqError {
    /// The input ended before a required field, directory entry or tile region.
    TruncatedInput,
    /// The embedded JPEG of the tile at this directory position did not decode.
    TileDecodeFailure { tile: usize },
    /// The tile at this directory position does not have the declared maplet size.
    TileSizeMismatch { tile: usize },
    /// The mosaic's pixel count does not fit in memory on this machine.
    MosaicTooLarge,
}

} // verus!
