//! Types and arithmetic for web-mercator slippy-map tile coordinates.
//!
//! A position on the map is kept in fixed point: one tile is `COORD_SCALE`
//! units, so a stored coordinate `x` stands for the fractional tile
//! coordinate `x / COORD_SCALE`. A `MercatorPoint` is the whole-world
//! (zoom 0) coordinate of a point; scaling it to a zoom level is an exact
//! multiplication by a power of two, so every derived quantity below is
//! exact integer arithmetic.

use vstd::prelude::*;

verus! {

use vstd::arithmetic::power2::{pow2, lemma2_to64, lemma2_to64_rest, lemma_pow2_pos,
    lemma_pow2_unfold, lemma_pow2_strictly_increases, lemma_pow2_adds};
use vstd::arithmetic::div_mod::{lemma_div_is_ordered, lemma_div_is_ordered_by_denominator,
    lemma_div_denominator, lemma_fundamental_div_mod, lemma_div_multiples_vanish,
    lemma_hoist_over_denominator, lemma_div_pos_is_pos};
use vstd::arithmetic::mul::{lemma_mul_inequality, lemma_mul_strict_inequality,
    lemma_mul_is_commutative, lemma_mul_inequality_converse, lemma_mul_is_associative};
use crate::errors::MapError;

/// Fixed-point units per tile: tile coordinates carry 32 fraction bits.
pub const COORD_SCALE: u64 = 4294967296;

/// The deepest zoom level the planner searches.
pub const MAX_ZOOM: u32 = 21;

/// One tile's edge, in pixels.
pub const TILE_SIZE_PX: u32 = 256;

/// Earth's mean circumference in millimetres: 2 * pi * 6371 km.
pub const EARTH_CIRCUMFERENCE_MM: u64 = 40030173592;

/// Largest radius the planner accepts, in millimetres (one million
/// kilometres); keeps every fixed-point product inside u64 / u128.
pub const MAX_RADIUS_MM: u64 = 1000000000000;

/// Upper bound on any stored tile coordinate (2^58); box corners built from
/// an in-range point and radius stay below it, and it leaves headroom for
/// the pixel arithmetic downstream.
pub const MAX_TILE_COORD: u64 = 288230376151711744;

/// A point on the world map in the Web Mercator unit square, scaled by
/// `COORD_SCALE`: `x` runs east from longitude -180, `y` runs south from the
/// northern map edge. This is the zoom-0 tile coordinate of the point.
#[derive(Debug, Clone, Copy, PartialEq, Eq, Structural)]
pub struct MercatorPoint {
    pub x: u64,
    pub y: u64,
}

impl MercatorPoint {
    /// The point lies inside the unit square.
    pub open spec fn wf(self) -> bool {
        self.x < COORD_SCALE && self.y < COORD_SCALE
    }
}

/// A fractional tile coordinate at a zoom level: the tile-grid position is
/// `x / COORD_SCALE`, and the fraction encodes the sub-tile pixel position.
/// Coordinates are signed: a box planned around a point close to the map's
/// west or north edge keeps its symmetric, negative corner, and only the
/// whole-tile indices taken from it saturate at the edge.
#[derive(Debug, Clone, Copy, PartialEq, Eq, Structural)]
pub struct TileCoordinate {
    pub x: i64,
    pub y: i64,
    pub z: u32,
}

impl TileCoordinate {
    pub open spec fn wf(self) -> bool {
        &&& self.z <= MAX_ZOOM
        &&& -(MAX_TILE_COORD as int) <= self.x <= MAX_TILE_COORD
        &&& -(MAX_TILE_COORD as int) <= self.y <= MAX_TILE_COORD
    }
}

/// A rectangular region of the tile grid, both corners at the same zoom.
#[derive(Debug, Clone, Copy, PartialEq, Eq, Structural)]
pub struct TileBox {
    pub top_left: TileCoordinate,
    pub bottom_right: TileCoordinate,
}

impl TileBox {
    pub open spec fn wf(self) -> bool {
        &&& self.top_left.wf()
        &&& self.bottom_right.wf()
        &&& self.top_left.z == self.bottom_right.z
        &&& self.top_left.x <= self.bottom_right.x
        &&& self.top_left.y <= self.bottom_right.y
    }

    /// The whole-tile indices of the box's top-left corner, saturating at
    /// zero at the map's west and north edges.
    pub fn outer_top_left(&self) -> (r: (u32, u32))
        requires
            self.wf(),
        ensures
            r.0 == clamp0(self.top_left.x as int / COORD_SCALE as int),
            r.1 == clamp0(self.top_left.y as int / COORD_SCALE as int),
    {
        proof {
            lemma_div_is_ordered(self.top_left.x as int, MAX_TILE_COORD as int,
                COORD_SCALE as int);
            lemma_div_is_ordered(self.top_left.y as int, MAX_TILE_COORD as int,
                COORD_SCALE as int);
        }
        let x = if self.top_left.x <= 0 {
            0
        } else {
            ((self.top_left.x as u64) / COORD_SCALE) as u32
        };
        let y = if self.top_left.y <= 0 {
            0
        } else {
            ((self.top_left.y as u64) / COORD_SCALE) as u32
        };
        proof {
            if self.top_left.x < 0 {
                lemma_div_is_ordered(self.top_left.x as int, -1, COORD_SCALE as int);
                assert((-1) / COORD_SCALE as int == -1);
            }
            if self.top_left.y < 0 {
                lemma_div_is_ordered(self.top_left.y as int, -1, COORD_SCALE as int);
                assert((-1) / COORD_SCALE as int == -1);
            }
        }
        (x, y)
    }

    /// The whole-tile indices just covering the box's bottom-right corner
    /// (the ceiling of the fractional coordinate), saturating at zero at
    /// the map's west and north edges.
    pub fn outer_bottom_right(&self) -> (r: (u32, u32))
        requires
            self.wf(),
        ensures
            r.0 == clamp0(ceil_tile(self.bottom_right.x)),
            r.1 == clamp0(ceil_tile(self.bottom_right.y)),
    {
        proof {
            lemma_div_is_ordered((self.bottom_right.x as int + COORD_SCALE - 1),
                (MAX_TILE_COORD + COORD_SCALE - 1) as int, COORD_SCALE as int);
            lemma_div_is_ordered((self.bottom_right.y as int + COORD_SCALE - 1),
                (MAX_TILE_COORD + COORD_SCALE - 1) as int, COORD_SCALE as int);
            if self.bottom_right.x <= 0 {
                lemma_div_is_ordered(self.bottom_right.x as int + COORD_SCALE - 1,
                    COORD_SCALE as int - 1, COORD_SCALE as int);
            }
            if self.bottom_right.y <= 0 {
                lemma_div_is_ordered(self.bottom_right.y as int + COORD_SCALE - 1,
                    COORD_SCALE as int - 1, COORD_SCALE as int);
            }
            if self.bottom_right.x > 0 {
                lemma_div_is_ordered(COORD_SCALE as int,
                    self.bottom_right.x as int + COORD_SCALE - 1, COORD_SCALE as int);
            }
            if self.bottom_right.y > 0 {
                lemma_div_is_ordered(COORD_SCALE as int,
                    self.bottom_right.y as int + COORD_SCALE - 1, COORD_SCALE as int);
            }
        }
        let x = if self.bottom_right.x <= 0 {
            0
        } else {
            (((self.bottom_right.x as u64) + COORD_SCALE - 1) / COORD_SCALE) as u32
        };
        let y = if self.bottom_right.y <= 0 {
            0
        } else {
            (((self.bottom_right.y as u64) + COORD_SCALE - 1) / COORD_SCALE) as u32
        };
        (x, y)
    }

    /// The pixel footprint of the box's fractional extent, saturating at
    /// u32::MAX.
    pub fn _outer_size_px(&self) -> (r: (u32, u32))
        requires
            self.wf(),
        ensures
            r.0 == sat_u32((self.bottom_right.x - self.top_left.x) as int
                * TILE_SIZE_PX as int / COORD_SCALE as int),
            r.1 == sat_u32((self.bottom_right.y - self.top_left.y) as int
                * TILE_SIZE_PX as int / COORD_SCALE as int),
    {
        let dx_fixed: i64 = self.bottom_right.x - self.top_left.x;
        let dy_fixed: i64 = self.bottom_right.y - self.top_left.y;
        let dx: u128 = ((dx_fixed as u128) * TILE_SIZE_PX as u128) / COORD_SCALE as u128;
        let dy: u128 = ((dy_fixed as u128) * TILE_SIZE_PX as u128) / COORD_SCALE as u128;
        (sat_u32_exec(dx), sat_u32_exec(dy))
    }
}

/// The tile index just covering fixed-point coordinate `c`: ceil(c / COORD_SCALE).
pub open spec fn ceil_tile(c: i64) -> int {
    (c as int + COORD_SCALE as int - 1) / COORD_SCALE as int
}

/// Clamp a non-negative mathematical value into u32.
pub open spec fn sat_u32(v: int) -> int {
    if v >= u32::MAX { u32::MAX as int } else { v }
}

fn sat_u32_exec(v: u128) -> (r: u32)
    ensures
        r == sat_u32(v as int),
{
    if v >= u32::MAX as u128 {
        u32::MAX
    } else {
        v as u32
    }
}

/// A tile box together with the point it was taken around and the pixel
/// footprint ("inner size") that the requested radius actually covers inside
/// the tile-aligned outer box.
#[derive(Debug, Clone, Copy)]
pub struct ConstrainedTileBox {
    pub center: MercatorPoint,
    pub tile_box: TileBox,
    pub inner_size_px: (u32, u32),
}

impl ConstrainedTileBox {
    pub open spec fn wf(self) -> bool {
        self.center.wf() && self.tile_box.wf()
    }
}

/// 2^e as a u64.
pub fn pow2_u64(e: u32) -> (r: u64)
    requires
        e < 64,
    ensures
        r == pow2(e as nat),
{
    let mut r: u64 = 1;
    let mut i: u32 = 0;
    proof {
        lemma2_to64();
    }
    while i < e
        invariant
            i <= e < 64,
            r == pow2(i as nat),
        decreases e - i,
    {
        proof {
            lemma2_to64();
            lemma2_to64_rest();
            if (i as nat) < 62 {
                lemma_pow2_strictly_increases(i as nat, 62);
            }
            lemma_pow2_unfold((i + 1) as nat);
        }
        r = r * 2;
        i = i + 1;
    }
    r
}

/// The x tile coordinate (fixed point) of `p` at `z`.
pub open spec fn tile_x_spec(p: MercatorPoint, z: u32) -> int {
    p.x as int * pow2(z as nat) as int
}

/// The y tile coordinate (fixed point) of `p` at `z`.
pub open spec fn tile_y_spec(p: MercatorPoint, z: u32) -> int {
    p.y as int * pow2(z as nat) as int
}

/// Converts a whole-world point to tile coordinates at a particular zoom.
/// Scaling by 2^zoom is exact, so nothing of the point is lost (see
/// `lemma_point_to_tile_round_trip`).
pub fn point_to_tile_coords(point: &MercatorPoint, zoom: u32) -> (t: TileCoordinate)
    requires
        point.wf(),
        zoom <= MAX_ZOOM,
    ensures
        t.x == tile_x_spec(*point, zoom),
        t.y == tile_y_spec(*point, zoom),
        t.z == zoom,
        t.wf(),
        0 <= t.x < pow2((zoom + 32) as nat),
        0 <= t.y < pow2((zoom + 32) as nat),
{
    let s = pow2_u64(zoom);
    proof {
        lemma2_to64();
        lemma_pow2_pos(zoom as nat);
        lemma_pow2_adds(zoom as nat, 32);
        // point.x * s <= (COORD_SCALE - 1) * s < COORD_SCALE * s == pow2(zoom + 32)
        lemma_mul_inequality(point.x as int, COORD_SCALE as int - 1, s as int);
        lemma_mul_inequality(point.y as int, COORD_SCALE as int - 1, s as int);
        lemma_mul_strict_inequality(COORD_SCALE as int - 1, COORD_SCALE as int, s as int);
        lemma_mul_is_commutative(COORD_SCALE as int, s as int);
        lemma2_to64_rest();
        if zoom + 32 < 53 {
            lemma_pow2_strictly_increases((zoom + 32) as nat, 53nat);
        }
        assert(pow2(53nat) <= MAX_TILE_COORD);
    }
    TileCoordinate { x: (point.x * s) as i64, y: (point.y * s) as i64, z: zoom }
}

/// Dividing the scaled coordinate by 2^zoom recovers the point exactly:
/// the fixed-point projection to a zoom level loses nothing.
pub proof fn lemma_point_to_tile_round_trip(p: MercatorPoint, zoom: u32)
    requires
        p.wf(),
        zoom <= MAX_ZOOM,
    ensures
        tile_x_spec(p, zoom) / pow2(zoom as nat) as int == p.x as int,
        tile_y_spec(p, zoom) / pow2(zoom as nat) as int == p.y as int,
{
    lemma_pow2_pos(zoom as nat);
    lemma_div_multiples_vanish(p.x as int, pow2(zoom as nat) as int);
    lemma_div_multiples_vanish(p.y as int, pow2(zoom as nat) as int);
}

/// Two points with the same tile coordinates at some zoom are the same
/// point: nothing else maps onto them.
pub proof fn lemma_point_to_tile_injective(p: MercatorPoint, q: MercatorPoint, zoom: u32)
    requires
        p.wf(),
        q.wf(),
        zoom <= MAX_ZOOM,
        tile_x_spec(p, zoom) == tile_x_spec(q, zoom),
        tile_y_spec(p, zoom) == tile_y_spec(q, zoom),
    ensures
        p == q,
{
    lemma_pow2_pos(zoom as nat);
    let s = pow2(zoom as nat) as int;
    lemma_mul_inequality_converse(p.x as int, q.x as int, s);
    lemma_mul_inequality_converse(q.x as int, p.x as int, s);
    lemma_mul_inequality_converse(p.y as int, q.y as int, s);
    lemma_mul_inequality_converse(q.y as int, p.y as int, s);
}

/// Clamp a possibly negative mathematical value at zero: whole-tile
/// indices saturate at the map's west and north edges.
pub open spec fn clamp0(v: int) -> int {
    if v < 0 {
        0
    } else {
        v
    }
}

/// The radius in fixed-point tile units at a zoom level:
/// radius / tile_edge_length, both in millimetres, scaled by COORD_SCALE.
pub open spec fn radius_units_spec(radius_mm: u64, z: u32) -> int {
    (radius_mm as int * COORD_SCALE as int * pow2(z as nat) as int)
        / EARTH_CIRCUMFERENCE_MM as int
}

/// The pixel footprint of the radius at a zoom level, before clamping:
/// 256 * radius-in-tiles, rounded down.
pub open spec fn inner_raw_spec(radius_mm: u64, z: u32) -> int {
    radius_units_spec(radius_mm, z) * TILE_SIZE_PX as int / COORD_SCALE as int
}

/// The pixel footprint of the radius at a zoom level, clamped into u32.
pub open spec fn inner_px_spec(radius_mm: u64, z: u32) -> u32 {
    sat_u32(inner_raw_spec(radius_mm, z)) as u32
}

/// Converts a radius in millimetres to fixed-point tile units at `zoom`.
pub fn radius_units(radius_mm: u64, zoom: u32) -> (r: u64)
    requires
        radius_mm <= MAX_RADIUS_MM,
        zoom <= MAX_ZOOM,
    ensures
        r == radius_units_spec(radius_mm, zoom),
        r <= 225010247183666322,
{
    let s = pow2_u64(zoom);
    proof {
        lemma2_to64();
        lemma2_to64_rest();
        if zoom < MAX_ZOOM {
            lemma_pow2_strictly_increases(zoom as nat, MAX_ZOOM as nat);
        }
        lemma_mul_inequality(radius_mm as int * COORD_SCALE as int,
            MAX_RADIUS_MM as int * COORD_SCALE as int, s as int);
        lemma_mul_inequality(s as int, pow2(MAX_ZOOM as nat) as int,
            MAX_RADIUS_MM as int * COORD_SCALE as int);
        lemma_mul_is_commutative(s as int, MAX_RADIUS_MM as int * COORD_SCALE as int);
        lemma_mul_is_commutative(pow2(MAX_ZOOM as nat) as int,
            MAX_RADIUS_MM as int * COORD_SCALE as int);
        lemma_div_is_ordered(radius_mm as int * COORD_SCALE as int * s as int,
            MAX_RADIUS_MM as int * COORD_SCALE as int * pow2(MAX_ZOOM as nat) as int,
            EARTH_CIRCUMFERENCE_MM as int);
    }
    let num: u128 = radius_mm as u128 * COORD_SCALE as u128 * s as u128;
    let q: u128 = num / EARTH_CIRCUMFERENCE_MM as u128;
    q as u64
}

/// The planned box for a centre point, radius and zoom, as a value.
pub open spec fn radius_box_spec(p: MercatorPoint, radius_mm: u64, z: u32) -> ConstrainedTileBox {
    let cx = tile_x_spec(p, z);
    let cy = tile_y_spec(p, z);
    let ru = radius_units_spec(radius_mm, z);
    let inner = inner_px_spec(radius_mm, z);
    ConstrainedTileBox {
        center: p,
        tile_box: TileBox {
            top_left: TileCoordinate { x: (cx - ru) as i64, y: (cy - ru) as i64, z: z },
            bottom_right: TileCoordinate { x: (cx + ru) as i64, y: (cy + ru) as i64, z: z },
        },
        inner_size_px: (inner, inner),
    }
}

/// Given a point on the earth, a radius, and a zoom level, produces the
/// square tile box of centre +/- radius (in tile units) around the point,
/// together with the pixel footprint the radius occupies at that zoom. The
/// box is symmetric on both axes whatever the latitude-dependent
/// distortion, and keeps its (possibly negative) corners near the map's
/// west and north edges.
pub fn radius_to_tile_box(point: &MercatorPoint, radius_mm: u64, zoom: u32) -> (b:
    ConstrainedTileBox)
    requires
        point.wf(),
        radius_mm <= MAX_RADIUS_MM,
        zoom <= MAX_ZOOM,
    ensures
        b == radius_box_spec(*point, radius_mm, zoom),
        b.wf(),
{
    let center_tile = point_to_tile_coords(point, zoom);
    let ru = radius_units(radius_mm, zoom);
    proof {
        lemma2_to64();
        lemma2_to64_rest();
        lemma_pow2_adds(zoom as nat, 32);
        if zoom + 32 < 53 {
            lemma_pow2_strictly_increases((zoom + 32) as nat, 53nat);
        }
    }
    let inner_raw: u128 = (ru as u128 * TILE_SIZE_PX as u128) / COORD_SCALE as u128;
    let inner = sat_u32_exec(inner_raw);
    let radius_fixed: i64 = ru as i64;
    ConstrainedTileBox {
        center: *point,
        tile_box: TileBox {
            top_left: TileCoordinate {
                x: center_tile.x - radius_fixed,
                y: center_tile.y - radius_fixed,
                z: zoom,
            },
            bottom_right: TileCoordinate {
                x: center_tile.x + radius_fixed,
                y: center_tile.y + radius_fixed,
                z: zoom,
            },
        },
        inner_size_px: (inner, inner),
    }
}

/// Iterates zoom levels 0 ..= MAX_ZOOM in increasing order and returns the
/// first whose inner pixel size strictly exceeds `image_size_px`, with its
/// box; the monotonicity of the inner size makes this the minimum such zoom.
/// When no zoom reaches the target the planner reports
/// `UnsatisfiableResolution` instead.
pub fn select_zoom_and_box(point: &MercatorPoint, radius_mm: u64, image_size_px: u32) -> (r:
    Result<(u32, ConstrainedTileBox), MapError>)
    requires
        point.wf(),
        radius_mm <= MAX_RADIUS_MM,
    ensures
        match r {
            Ok(found) => {
                &&& found.0 <= MAX_ZOOM
                &&& inner_px_spec(radius_mm, found.0) > image_size_px
                &&& forall|z2: u32| z2 < found.0 ==> inner_px_spec(radius_mm, z2) <= image_size_px
                &&& found.1 == radius_box_spec(*point, radius_mm, found.0)
                &&& found.1.wf()
            },
            Err(e) => {
                &&& e == MapError::UnsatisfiableResolution
                &&& forall|z2: u32|
                    z2 <= MAX_ZOOM ==> inner_px_spec(radius_mm, z2) <= image_size_px
            },
        },
{
    let mut zoom: u32 = 0;
    while zoom <= MAX_ZOOM
        invariant
            point.wf(),
            radius_mm <= MAX_RADIUS_MM,
            zoom <= MAX_ZOOM + 1,
            forall|z2: u32| z2 < zoom ==> inner_px_spec(radius_mm, z2) <= image_size_px,
        decreases MAX_ZOOM + 1 - zoom,
    {
        let b = radius_to_tile_box(point, radius_mm, zoom);
        if b.inner_size_px.0 > image_size_px {
            return Ok((zoom, b));
        }
        zoom = zoom + 1;
    }
    Err(MapError::UnsatisfiableResolution)
}

/// Doubling a non-negative numerator at least doubles the quotient.
proof fn lemma_double_div_bound(n: int, c: int)
    requires
        n >= 0,
        c > 0,
    ensures
        (2 * n) / c >= 2 * (n / c),
{
    let q = n / c;
    let r = n % c;
    lemma_fundamental_div_mod(n, c);
    assert(2 * n == 2 * r + (2 * q) * c) by {
        lemma_mul_is_commutative(c, q);
        lemma_mul_is_associative(2, q, c);
    }
    lemma_hoist_over_denominator(2 * r, 2 * q, c as nat);
    lemma_div_pos_is_pos(2 * r, c);
}

/// One zoom level in, the radius covers at least twice as many fixed-point
/// tile units.
proof fn lemma_radius_units_at_least_doubles(radius_mm: u64, zoom: u32)
    requires
        zoom < MAX_ZOOM,
    ensures
        radius_units_spec(radius_mm, (zoom + 1) as u32) >= 2 * radius_units_spec(
            radius_mm,
            zoom,
        ),
        radius_units_spec(radius_mm, zoom) >= 0,
{
    let base = radius_mm as int * COORD_SCALE as int;
    let n = base * pow2(zoom as nat) as int;
    lemma_pow2_pos(zoom as nat);
    lemma_pow2_unfold((zoom + 1) as nat);
    assert(base * pow2((zoom + 1) as nat) as int == 2 * n) by {
        assert(pow2((zoom + 1) as nat) == 2 * pow2(zoom as nat));
        lemma_mul_is_associative(base, 2, pow2(zoom as nat) as int);
        lemma_mul_is_commutative(base, 2);
        lemma_mul_is_associative(2, base, pow2(zoom as nat) as int);
    }
    lemma_double_div_bound(n, EARTH_CIRCUMFERENCE_MM as int);
    assert(n >= 0) by {
        lemma_mul_inequality(0, base, pow2(zoom as nat) as int);
    }
    lemma_div_pos_is_pos(n, EARTH_CIRCUMFERENCE_MM as int);
}

/// For a fixed point and radius, the inner pixel size grows strictly with
/// the zoom level, as long as it has become visible (at least one pixel) and
/// the next level does not clamp at u32::MAX.
pub proof fn lemma_inner_size_strictly_increasing(radius_mm: u64, zoom: u32)
    requires
        zoom < MAX_ZOOM,
        inner_raw_spec(radius_mm, zoom) >= 1,
        inner_raw_spec(radius_mm, (zoom + 1) as u32) <= u32::MAX,
    ensures
        inner_px_spec(radius_mm, (zoom + 1) as u32) > inner_px_spec(radius_mm, zoom),
{
    let z1 = (zoom + 1) as u32;
    let ru0 = radius_units_spec(radius_mm, zoom);
    let ru1 = radius_units_spec(radius_mm, z1);
    lemma_radius_units_at_least_doubles(radius_mm, zoom);
    lemma_mul_inequality(2 * ru0, ru1, TILE_SIZE_PX as int);
    assert((2 * ru0) * TILE_SIZE_PX as int == 2 * (ru0 * TILE_SIZE_PX as int)) by {
        lemma_mul_is_associative(2, ru0, TILE_SIZE_PX as int);
    }
    lemma_div_is_ordered(2 * (ru0 * TILE_SIZE_PX as int), ru1 * TILE_SIZE_PX as int,
        COORD_SCALE as int);
    lemma_double_div_bound(ru0 * TILE_SIZE_PX as int, COORD_SCALE as int);
    assert(ru0 * TILE_SIZE_PX as int >= 0) by {
        lemma_mul_inequality(0, ru0, TILE_SIZE_PX as int);
    }
    assert(inner_raw_spec(radius_mm, z1) >= 2 * inner_raw_spec(radius_mm, zoom));
}

/// The ground length of one tile's edge at a zoom level, in millimetres.
pub open spec fn tile_edge_mm_spec(z: u32) -> int {
    EARTH_CIRCUMFERENCE_MM as int / pow2(z as nat) as int
}

/// tile_edge_mm gives the length of a tile's edge at the given zoom level in
/// millimetres; in web mercator it is the same on both axes.
pub fn tile_edge_mm(zoom: u32) -> (r: u64)
    requires
        zoom <= MAX_ZOOM,
    ensures
        r == tile_edge_mm_spec(zoom),
{
    proof {
        lemma_pow2_pos(zoom as nat);
    }
    EARTH_CIRCUMFERENCE_MM / pow2_u64(zoom)
}

/// Each zoom level in, a tile's edge covers strictly less ground.
pub proof fn lemma_tile_edge_strictly_decreasing(zoom: u32)
    requires
        zoom < MAX_ZOOM,
    ensures
        tile_edge_mm_spec((zoom + 1) as u32) < tile_edge_mm_spec(zoom),
{
    let c = EARTH_CIRCUMFERENCE_MM as int;
    let p = pow2(zoom as nat) as int;
    lemma_pow2_pos(zoom as nat);
    lemma_pow2_unfold((zoom + 1) as nat);
    lemma_div_denominator(c, p, 2);
    assert(tile_edge_mm_spec((zoom + 1) as u32) == (c / p) / 2);
    lemma2_to64();
    if zoom > 0 {
        lemma_pow2_strictly_increases(zoom as nat, 21nat);
    }
    lemma_div_is_ordered_by_denominator(c, p, pow2(21nat) as int);
    assert(c / pow2(21nat) as int == 19087);
    assert(c / p >= 19087);
}

} // verus!
