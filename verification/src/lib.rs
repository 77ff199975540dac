//! Builds a square PNG image centred on a point on Earth, assembled from a
//! slippy-map tile provider.
//!
//! Tile coordinates are kept in fixed point (32 fraction bits per tile), so
//! the planner, the tile enumeration and the compositor are all exact integer
//! arithmetic. The lat/long to Web Mercator projection itself, the HTTP
//! fetching and the PNG codec live outside the library's verified core.

pub mod coordinates;
pub mod errors;
pub mod raster;
pub mod telemetry;
pub mod tiles;
