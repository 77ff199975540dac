//! The failure kinds a request can end in. All of them are reported to the
//! caller as values; none of the library's verified functions panics.

use vstd::prelude::*;

verus! {

/// Why building an image failed.
#[derive(Debug, Clone, PartialEq, Eq)]
pub enum MapError {
    /// No zoom level up to `MAX_ZOOM` gives enough pixels for the requested
    /// radius and target size.
    UnsatisfiableResolution,
    /// At least one tile request failed; the payload describes the first
    /// failure seen while scanning the results.
    TileFetch(String),
    /// A fetched tile's bytes could not be decoded as a 256 x 256 raster.
    Decode,
    /// The crop rectangle would fall outside the assembled canvas.
    Geometry,
}

impl MapError {
    /// A short description, for callers that need text.
    pub fn describe(&self) -> (r: &str)
        ensures
            self is UnsatisfiableResolution ==> r@ == "no zoom level supplies the requested resolution"@,
            self is TileFetch ==> r@ == "fetching a tile failed"@,
            self is Decode ==> r@ == "decoding a tile failed"@,
            self is Geometry ==> r@ == "the crop rectangle falls outside the canvas"@,
    {
        match self {
            MapError::UnsatisfiableResolution => "no zoom level supplies the requested resolution",
            MapError::TileFetch(_) => "fetching a tile failed",
            MapError::Decode => "decoding a tile failed",
            MapError::Geometry => "the crop rectangle falls outside the canvas",
        }
    }
}

} // verus!
