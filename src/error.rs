//! Failures of the map decoder.
use vstd::prelude::*;

verus! {

/// Why a save container or a decompressed stream could not be decoded.
#[derive(Debug, Clone, Copy, PartialEq, Eq, Structural)]
pub enum MapError {
    /// The container does not begin with the save-file signature.
    BadMagic,
    /// The first scan of the container found no framed compressed block.
    NoCompressedBlockFound,
    /// Every framed block was tried and none held the map marker.
    NoMapInAnyBlock,
    /// The decompressed stream holds no map marker.
    NoMapMarker,
    /// The map's tile count is not one of the known map sizes.
    UnrecognizedMapSize,
    /// A read of the map header or of a tile record runs past the end of
    /// the decompressed stream.
    TruncatedRecord,
}

} // verus!
