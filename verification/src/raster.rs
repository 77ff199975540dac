//! Rasters and the compositing pipeline: pasting decoded tiles into a
//! canvas, cropping the requested window out of it, and the PNG codec
//! boundary. The pasting and cropping are exact byte-level operations; only
//! the codec itself is trusted.

use vstd::prelude::*;

verus! {

use vstd::arithmetic::div_mod::{lemma_fundamental_div_mod_converse, lemma_div_is_ordered};
use vstd::arithmetic::mul::{lemma_mul_inequality, lemma_mul_is_distributive_add_other_way,
    lemma_mul_is_associative, lemma_mul_is_commutative};
use crate::errors::MapError;
use crate::coordinates::{TileBox, ConstrainedTileBox, TILE_SIZE_PX, COORD_SCALE,
    MAX_TILE_COORD, point_to_tile_coords, tile_x_spec, tile_y_spec};
use vstd::arithmetic::power2::{pow2, lemma2_to64, lemma2_to64_rest, lemma_pow2_strictly_increases};
use crate::tiles::{TileFetch, tiles_in_grid_order, grid_x0, grid_y0, grid_nx, grid_ny,
    collect_xs, collect_ys, count_distinct, lemma_div_pattern_card, lemma_mod_pattern_card,
    lemma_grid_order_keys_distinct};
use vstd::arithmetic::div_mod::{lemma_div_pos_is_pos, lemma_mod_bound,
    lemma_multiply_divide_lt, lemma_fundamental_div_mod};

/// An RGBA raster: `4` bytes per pixel, pixels row by row from the top-left.
#[derive(Debug, Clone)]
pub struct Raster {
    pub width: u32,
    pub height: u32,
    pub data: Vec<u8>,
}

impl Raster {
    /// The buffer holds exactly the raster's pixels.
    pub open spec fn wf(self) -> bool {
        self.data@.len() == 4 * self.width * self.height
    }
}

/// The buffer index of byte `k` of the pixel at (`x`, `y`) in a raster
/// `w` pixels wide.
pub open spec fn byte_at(w: int, x: int, y: int, k: int) -> int {
    4 * (y * w + x) + k
}

/// Two distinct in-range pixel-byte positions have distinct buffer indices.
pub proof fn lemma_byte_at_injective(w: int, x1: int, y1: int, k1: int, x2: int, y2: int, k2: int)
    requires
        0 <= x1 < w,
        0 <= x2 < w,
        0 <= k1 < 4,
        0 <= k2 < 4,
        y1 >= 0,
        y2 >= 0,
        byte_at(w, x1, y1, k1) == byte_at(w, x2, y2, k2),
    ensures
        x1 == x2,
        y1 == y2,
        k1 == k2,
{
    lemma_fundamental_div_mod_converse(y1 * w + x1, w, y1, x1);
    lemma_fundamental_div_mod_converse(y2 * w + x2, w, y2, x2);
}

/// A row that starts inside the raster ends inside it: the byte just past
/// row `y`'s end is within `w * h` pixels.
proof fn lemma_row_fits(y: int, h: int, w: int)
    requires
        0 <= y < h,
        w >= 0,
    ensures
        y * w + w <= h * w,
{
    lemma_mul_is_distributive_add_other_way(w, y, 1);
    lemma_mul_inequality(y + 1, h, w);
}

/// A fresh, fully transparent canvas.
pub fn new_canvas(width: u32, height: u32) -> (r: Raster)
    requires
        4 * width * height <= usize::MAX,
    ensures
        r.wf(),
        r.width == width,
        r.height == height,
        forall|j: int| 0 <= j < r.data@.len() ==> r.data@[j] == 0,
{
    proof {
        lemma_mul_is_associative(4, width as int, height as int);
    }
    let n: usize = ((width as usize) * (height as usize)) * 4;
    let data: Vec<u8> = vec![0u8; n];
    proof {
        lemma_mul_is_associative(4, width as int, height as int);
    }
    Raster { width, height, data }
}

/// Draws the whole of `tile` into `canvas` with its top-left corner at
/// pixel (`px`, `py`): every byte of the covered rectangle becomes the
/// tile's byte, and every byte outside it keeps its old value.
#[verifier::loop_isolation(false)]
pub fn paste(canvas: &mut Raster, tile: &Raster, px: u32, py: u32)
    requires
        old(canvas).wf(),
        tile.wf(),
        px + tile.width <= old(canvas).width,
        py + tile.height <= old(canvas).height,
    ensures
        final(canvas).wf(),
        final(canvas).width == old(canvas).width,
        final(canvas).height == old(canvas).height,
        forall|x: int, y: int, k: int|
            0 <= x < tile.width && 0 <= y < tile.height && 0 <= k < 4
                ==> final(canvas).data@[byte_at(old(canvas).width as int, px + x, py + y, k)]
                == tile.data@[byte_at(tile.width as int, x, y, k)],
        forall|x: int, y: int, k: int|
            0 <= x < old(canvas).width && 0 <= y < old(canvas).height && 0 <= k < 4 && !(px <= x
                < px + tile.width && py <= y < py + tile.height)
                ==> final(canvas).data@[byte_at(old(canvas).width as int, x, y, k)]
                == old(canvas).data@[byte_at(old(canvas).width as int, x, y, k)],
{
    let w = canvas.width;
    let h = canvas.height;
    let tw = tile.width;
    let th = tile.height;
    // taking the lengths records that both buffers fit in usize
    let dlen = canvas.data.len();
    let tlen = tile.data.len();
    let ghost wi = w as int;
    proof {
        lemma_mul_is_associative(4, wi, h as int);
        lemma_mul_is_associative(4, tw as int, th as int);
        lemma_mul_is_commutative(h as int, wi);
        lemma_mul_is_commutative(th as int, tw as int);
    }
    let mut y: u32 = 0;
    while y < th
        invariant
            canvas.wf(),
            canvas.width == w,
            canvas.height == h,
            0 <= y <= th,
            forall|x2: int, y2: int, k: int|
                0 <= x2 < tw && 0 <= y2 < y && 0 <= k < 4 ==> canvas.data@[byte_at(wi, px + x2,
                    py + y2, k)] == tile.data@[byte_at(tw as int, x2, y2, k)],
            forall|x2: int, y2: int, k: int|
                0 <= x2 < w && 0 <= y2 < h && 0 <= k < 4 && !(px <= x2 < px + tw && py <= y2 < py
                    + y) ==> canvas.data@[byte_at(wi, x2, y2, k)] == old(canvas).data@[byte_at(
                    wi, x2, y2, k)],
        decreases th - y,
    {
        proof {
            lemma_row_fits((py + y) as int, h as int, wi);
            lemma_row_fits(y as int, th as int, tw as int);
            lemma_mul_inequality(1, th as int, tw as int);
        }
        let dst_row: usize = ((py + y) as usize) * (w as usize) + (px as usize);
        let src_row: usize = (y as usize) * (tw as usize);
        let row_bytes: usize = 4 * (tw as usize);
        let mut i: usize = 0;
        while i < row_bytes
            invariant
                canvas.wf(),
                canvas.width == w,
                canvas.height == h,
                0 <= i <= row_bytes,
                forall|i2: int|
                    0 <= i2 < i ==> canvas.data@[4 * dst_row + i2] == #[trigger] tile.data@[4
                        * src_row + i2],
                forall|x2: int, y2: int, k: int|
                    0 <= x2 < tw && 0 <= y2 < y && 0 <= k < 4 ==> canvas.data@[byte_at(wi, px
                        + x2, py + y2, k)] == tile.data@[byte_at(tw as int, x2, y2, k)],
                forall|x2: int, y2: int, k: int|
                    0 <= x2 < w && 0 <= y2 < h && 0 <= k < 4 && !(px <= x2 < px + tw && py <= y2
                        < py + y) && !(py + y == y2 && px <= x2 < px + tw && 4 * (x2 - px) + k
                        < i) ==> canvas.data@[byte_at(wi, x2, y2, k)] == old(canvas).data@[
                        byte_at(wi, x2, y2, k)],
            decreases row_bytes - i,
        {
            let dst: usize = 4 * dst_row + i;
            let src: usize = 4 * src_row + i;
            let b = tile.data[src];
            let ghost pre = canvas.data@;
            canvas.data[dst] = b;
            proof {
                let xw: int = px + i / 4;
                let yw: int = (py + y) as int;
                let kw: int = (i % 4) as int;
                assert(dst == byte_at(wi, xw, yw, kw));
                assert forall|x2: int, y2: int, k: int|
                    0 <= x2 < w && 0 <= y2 < h && 0 <= k < 4 && !(px <= x2 < px + tw && py <= y2
                        < py + y) && !(py + y == y2 && px <= x2 < px + tw && 4 * (x2 - px) + k
                        < i + 1) implies canvas.data@[byte_at(wi, x2, y2, k)]
                    == old(canvas).data@[byte_at(wi, x2, y2, k)] by {
                    lemma_row_fits(y2, h as int, wi);
                    if byte_at(wi, x2, y2, k) == dst {
                        lemma_byte_at_injective(wi, x2, y2, k, xw, yw, kw);
                    }
                }
                assert forall|x2: int, y2: int, k: int|
                    0 <= x2 < tw && 0 <= y2 < y && 0 <= k < 4 implies canvas.data@[byte_at(wi,
                    px + x2, py + y2, k)] == tile.data@[byte_at(tw as int, x2, y2, k)] by {
                    lemma_row_fits((py + y2) as int, h as int, wi);
                    lemma_row_fits(y2, th as int, tw as int);
                    let idx = byte_at(wi, px + x2, py + y2, k);
                    assert(0 <= idx < pre.len());
                    assert(pre[idx] == tile.data@[byte_at(tw as int, x2, y2, k)]);
                    if idx == dst {
                        lemma_byte_at_injective(wi, px + x2, py + y2, k, xw, yw, kw);
                    } else {
                        assert(canvas.data@[idx] == pre[idx]);
                    }
                }
                assert forall|i2: int| 0 <= i2 < i + 1 implies canvas.data@[4 * dst_row
                    + i2] == #[trigger] tile.data@[4 * src_row + i2] by {
                    if i2 < i {
                        assert(pre[4 * dst_row + i2] == tile.data@[4 * src_row + i2]);
                    }
                }
            }
            i = i + 1;
        }
        proof {
            // the finished byte row is the finished pixel row
            assert forall|x2: int, y2: int, k: int|
                0 <= x2 < tw && 0 <= y2 < y + 1 && 0 <= k < 4 implies canvas.data@[byte_at(wi,
                px + x2, py + y2, k)] == tile.data@[byte_at(tw as int, x2, y2, k)] by {
                if y2 == y {
                    let i2 = 4 * x2 + k;
                    assert(byte_at(wi, px + x2, py + y2, k) == 4 * dst_row + i2);
                    assert(byte_at(tw as int, x2, y2, k) == 4 * src_row + i2);
                }
            }
        }
        y = y + 1;
    }
}

/// Copies the `w_out` x `h_out` window of `canvas` whose top-left corner
/// lies at pixel (`ox`, `oy`) into a fresh raster.
#[verifier::loop_isolation(false)]
pub fn crop(canvas: &Raster, ox: u32, oy: u32, w_out: u32, h_out: u32) -> (r: Raster)
    requires
        canvas.wf(),
        ox + w_out <= canvas.width,
        oy + h_out <= canvas.height,
        4 * w_out * h_out <= usize::MAX,
    ensures
        r.wf(),
        r.width == w_out,
        r.height == h_out,
        forall|u: int, v: int, k: int|
            0 <= u < w_out && 0 <= v < h_out && 0 <= k < 4 ==> r.data@[byte_at(w_out as int, u,
                v, k)] == canvas.data@[byte_at(canvas.width as int, ox + u, oy + v, k)],
{
    let w = canvas.width;
    let h = canvas.height;
    // taking the length records that the canvas buffer fits in usize
    let dlen = canvas.data.len();
    let ghost wi = w as int;
    proof {
        lemma_mul_is_associative(4, wi, h as int);
        lemma_mul_is_associative(4, w_out as int, h_out as int);
        lemma_mul_is_commutative(h as int, wi);
        lemma_mul_is_commutative(h_out as int, w_out as int);
    }
    let mut data: Vec<u8> = Vec::new();
    let mut v: u32 = 0;
    while v < h_out
        invariant
            0 <= v <= h_out,
            data@.len() == 4 * (v * w_out),
            forall|u2: int, v2: int, k2: int|
                0 <= u2 < w_out && 0 <= v2 < v && 0 <= k2 < 4 ==> data@[byte_at(w_out as int,
                    u2, v2, k2)] == canvas.data@[byte_at(wi, ox + u2, oy + v2, k2)],
        decreases h_out - v,
    {
        proof {
            lemma_row_fits((oy + v) as int, h as int, wi);
            lemma_row_fits(v as int, h_out as int, w_out as int);
        }
        let src_row: usize = ((oy + v) as usize) * (w as usize) + (ox as usize);
        let row_bytes: usize = 4 * (w_out as usize);
        let mut i: usize = 0;
        while i < row_bytes
            invariant
                0 <= v < h_out,
                0 <= i <= row_bytes,
                src_row == (oy + v) * w + ox,
                data@.len() == 4 * (v * w_out) + i,
                forall|i2: int|
                    0 <= i2 < i ==> data@[4 * (v * w_out) + i2] == #[trigger] canvas.data@[4
                        * src_row + i2],
                forall|u2: int, v2: int, k2: int|
                    0 <= u2 < w_out && 0 <= v2 < v && 0 <= k2 < 4 ==> data@[byte_at(
                        w_out as int, u2, v2, k2)] == canvas.data@[byte_at(wi, ox + u2, oy + v2,
                        k2)],
            decreases row_bytes - i,
        {
            let ghost pre = data@;
            data.push(canvas.data[4 * src_row + i]);
            proof {
                assert forall|u2: int, v2: int, k2: int|
                    0 <= u2 < w_out && 0 <= v2 < v && 0 <= k2 < 4 implies data@[byte_at(
                    w_out as int, u2, v2, k2)] == canvas.data@[byte_at(wi, ox + u2, oy + v2,
                    k2)] by {
                    lemma_row_fits(v2, h_out as int, w_out as int);
                    lemma_mul_is_distributive_add_other_way(w_out as int, v2, 1);
                    lemma_mul_inequality(v2 + 1, v as int, w_out as int);
                    assert(byte_at(w_out as int, u2, v2, k2) < 4 * (v * w_out));
                    assert(pre[byte_at(w_out as int, u2, v2, k2)] == canvas.data@[byte_at(wi,
                        ox + u2, oy + v2, k2)]);
                }
            }
            i = i + 1;
        }
        proof {
            lemma_mul_is_distributive_add_other_way(w_out as int, v as int, 1);
            assert forall|u2: int, v2: int, k2: int|
                0 <= u2 < w_out && 0 <= v2 < v + 1 && 0 <= k2 < 4 implies data@[byte_at(
                w_out as int, u2, v2, k2)] == canvas.data@[byte_at(wi, ox + u2, oy + v2,
                k2)] by {
                if v2 == v {
                    let i2 = 4 * u2 + k2;
                    assert(byte_at(w_out as int, u2, v2, k2) == 4 * (v * w_out) + i2);
                    assert(byte_at(wi, ox + u2, oy + v2, k2) == 4 * src_row + i2);
                }
            }
        }
        v = v + 1;
    }
    Raster { width: w_out, height: h_out, data }
}

/// What the PNG codec makes of a byte string: the dimensions and RGBA
/// pixels it decodes to, or nothing when the bytes are not a decodable
/// image. Decoding is a pure function of the bytes alone.
pub uninterp spec fn png_decoded(bytes: Seq<u8>) -> Option<(u32, u32, Seq<u8>)>;

/// The PNG encoding of an RGBA raster: a pure function of the dimensions
/// and the pixel bytes alone.
pub uninterp spec fn png_encoded(width: u32, height: u32, data: Seq<u8>) -> Seq<u8>;

/// The widest raster edge for which the codec round trip is stated. The
/// decoder caps its allocations at 512 MiB; up to this edge the decoded
/// buffer takes at most 256 MiB and the decoder's row-sized working
/// buffers a few tens of kilobytes, so decoding an encoded raster stays
/// far inside the cap.
pub const PNG_ROUND_TRIP_MAX_EDGE_PX: u32 = 8192;

/// Relies on image::load_from_memory_with_format and
/// DynamicImage::to_rgba8: decoding with the format fixed to PNG either
/// fails or yields an RGBA buffer of exactly 4 * width * height bytes,
/// determined by the input bytes alone (naming the format keeps the
/// decoder off the crate's process-global hook registry).
#[verifier::external_body]
fn decode_png(bytes: &[u8]) -> (r: Result<Raster, MapError>)
    ensures
        match r {
            Ok(t) => png_decoded(bytes@) == Some((t.width, t.height, t.data@)) && t.wf(),
            Err(e) => png_decoded(bytes@) is None && e == MapError::Decode,
        },
{
    match image::load_from_memory_with_format(bytes, image::ImageFormat::Png) {
        Ok(img) => {
            let buf = img.to_rgba8();
            let (width, height) = buf.dimensions();
            Ok(Raster { width, height, data: buf.into_raw() })
        },
        Err(_) => Err(MapError::Decode),
    }
}

/// Relies on DynamicImage::write_to with ImageFormat::Png: for a raster of
/// positive dimensions whose buffer holds exactly 4 * width * height bytes,
/// encoding into an in-memory writer always succeeds (the PNG encoder
/// refuses only zero dimensions, and writing to a Vec cannot fail), and
/// the bytes are determined by the dimensions and pixels alone. PNG stores
/// eight-bit RGBA losslessly, so decoding the bytes recovers the raster
/// exactly — stated up to `PNG_ROUND_TRIP_MAX_EDGE_PX` an edge, inside the
/// decoder's allocation cap; above it the decoder may refuse the image.
#[verifier::external_body]
fn encode_png(raster: &Raster) -> (r: Result<Vec<u8>, ()>)
    requires
        raster.wf(),
        raster.width > 0,
        raster.height > 0,
    ensures
        r is Ok,
        (r matches Ok(b) ==> b@ == png_encoded(raster.width, raster.height, raster.data@)),
        (r matches Ok(b) ==> raster.width <= PNG_ROUND_TRIP_MAX_EDGE_PX && raster.height
            <= PNG_ROUND_TRIP_MAX_EDGE_PX ==> png_decoded(b@) == Some(
            (raster.width, raster.height, raster.data@),
        )),
{
    let raw = raster.data.clone();
    let buf = match image::ImageBuffer::<image::Rgba<u8>, Vec<u8>>::from_raw(raster.width, raster.height, raw) {
        Some(b) => b,
        None => return Err(()),
    };
    let mut out: Vec<u8> = Vec::new();
    let cursor = &mut std::io::Cursor::new(&mut out);
    match image::DynamicImage::ImageRgba8(buf).write_to(cursor, image::ImageFormat::Png) {
        Ok(()) => Ok(out),
        Err(_) => Err(()),
    }
}

/// The tile's bytes decode to a full 256 x 256 raster.
pub open spec fn decoded_tile_ok(t: TileFetch) -> bool {
    (png_decoded(t.bytes@) matches Some(d) && d.0 == TILE_SIZE_PX && d.1 == TILE_SIZE_PX)
}

/// The canvas holds the tile's decoded pixels in the 256 x 256 square at
/// the tile's grid offset from the box origin (`x0`, `y0`).
pub open spec fn tile_placed(c: Raster, t: TileFetch, x0: int, y0: int) -> bool {
    forall|u: int, v: int, k: int|
        0 <= u < TILE_SIZE_PX && 0 <= v < TILE_SIZE_PX && 0 <= k < 4 ==> c.data@[byte_at(
            c.width as int,
            (t.x - x0) * TILE_SIZE_PX + u,
            (t.y - y0) * TILE_SIZE_PX + v,
            k,
        )] == png_decoded(t.bytes@)->Some_0.2[#[trigger] byte_at(TILE_SIZE_PX as int, u, v, k)]
}

/// Assembles the fetched tiles into one canvas. The canvas's dimensions
/// come from the count of distinct x and distinct y indices present in the
/// tile collection, each tile's bytes are decoded, and the decoded pixels
/// are drawn at the tile's offset from the box's top-left whole tile. A
/// tile whose bytes do not decode to a 256 x 256 raster fails the whole
/// operation.
#[verifier::loop_isolation(false)]
pub fn stitch(tiles: &Vec<TileFetch>, tile_box: &TileBox) -> (r: Result<Raster, MapError>)
    requires
        tile_box.wf(),
        tiles_in_grid_order(tiles@, *tile_box),
        TILE_SIZE_PX * grid_nx(*tile_box) <= u32::MAX,
        TILE_SIZE_PX * grid_ny(*tile_box) <= u32::MAX,
        4 * (TILE_SIZE_PX * grid_nx(*tile_box)) * (TILE_SIZE_PX * grid_ny(*tile_box))
            <= usize::MAX,
    ensures
        match r {
            Ok(c) => {
                &&& c.wf()
                &&& c.width == TILE_SIZE_PX * grid_nx(*tile_box)
                &&& c.height == TILE_SIZE_PX * grid_ny(*tile_box)
                &&& forall|i: int|
                    0 <= i < tiles@.len() ==> decoded_tile_ok(#[trigger] tiles@[i])
                        && tile_placed(c, tiles@[i], grid_x0(*tile_box), grid_y0(*tile_box))
            },
            Err(e) => {
                &&& e == MapError::Decode
                &&& exists|i: int| 0 <= i < tiles@.len() && !decoded_tile_ok(#[trigger] tiles@[i])
            },
        },
{
    let ghost bx = *tile_box;
    let ghost nx = grid_nx(bx);
    let ghost ny = grid_ny(bx);
    let ghost x0 = grid_x0(bx);
    let ghost y0 = grid_y0(bx);
    proof {
        // the grid is at least one tile on each axis, and its origin is in
        // range: the clamped whole-tile indices are ordered and bounded
        lemma_div_is_ordered(bx.top_left.x as int, bx.bottom_right.x as int, COORD_SCALE as int);
        lemma_div_is_ordered(bx.bottom_right.x as int, (bx.bottom_right.x + COORD_SCALE
            - 1) as int, COORD_SCALE as int);
        lemma_div_is_ordered(bx.top_left.y as int, bx.bottom_right.y as int, COORD_SCALE as int);
        lemma_div_is_ordered(bx.bottom_right.y as int, (bx.bottom_right.y + COORD_SCALE
            - 1) as int, COORD_SCALE as int);
        lemma_div_is_ordered((bx.bottom_right.x + COORD_SCALE - 1) as int, (MAX_TILE_COORD
            + COORD_SCALE - 1) as int, COORD_SCALE as int);
        lemma_div_is_ordered((bx.bottom_right.y + COORD_SCALE - 1) as int, (MAX_TILE_COORD
            + COORD_SCALE - 1) as int, COORD_SCALE as int);
    }
    let xs = collect_xs(tiles);
    let nx_present = count_distinct(&xs);
    let ys = collect_ys(tiles);
    let ny_present = count_distinct(&ys);
    proof {
        assert forall|i: int| 0 <= i < xs@.len() implies #[trigger] xs@[i] == x0 + i / ny by {
            assert(tiles@[i].x == x0 + i / ny);
        }
        lemma_div_pattern_card(xs@, x0, nx, ny);
        assert forall|i: int| 0 <= i < ys@.len() implies #[trigger] ys@[i] == y0 + i % ny by {
            assert(tiles@[i].y == y0 + i % ny);
        }
        lemma_mod_pattern_card(ys@, y0, nx, ny);
        assert(nx_present == nx);
        assert(ny_present == ny);
    }
    let w: u32 = TILE_SIZE_PX * (nx_present as u32);
    let h: u32 = TILE_SIZE_PX * (ny_present as u32);
    let mut canvas = new_canvas(w, h);
    let (x0_u, y0_u) = tile_box.outer_top_left();
    let mut idx: usize = 0;
    while idx < tiles.len()
        invariant
            canvas.wf(),
            canvas.width == w,
            canvas.height == h,
            0 <= idx <= tiles@.len(),
            forall|i: int|
                0 <= i < idx ==> decoded_tile_ok(#[trigger] tiles@[i]) && tile_placed(canvas,
                    tiles@[i], x0, y0),
        decreases tiles@.len() - idx,
    {
        let t = &tiles[idx];
        proof {
            assert(tiles@[idx as int].x == x0 + idx as int / ny);
            assert(tiles@[idx as int].y == y0 + idx as int % ny);
            lemma_div_pos_is_pos(idx as int, ny);
            lemma_mod_bound(idx as int, ny);
            lemma_mul_is_commutative(nx, ny);
            lemma_multiply_divide_lt(idx as int, ny, nx);
        }
        let dec = match decode_png(t.bytes.as_slice()) {
            Ok(d) => d,
            Err(e) => {
                proof {
                    assert(!decoded_tile_ok(tiles@[idx as int]));
                }
                return Err(e);
            },
        };
        if dec.width != TILE_SIZE_PX || dec.height != TILE_SIZE_PX {
            proof {
                assert(!decoded_tile_ok(tiles@[idx as int]));
            }
            return Err(MapError::Decode);
        }
        let dx: u32 = t.x - x0_u;
        let dy: u32 = t.y - y0_u;
        let px: u32 = dx * TILE_SIZE_PX;
        let py: u32 = dy * TILE_SIZE_PX;
        let ghost pre_canvas = canvas;
        paste(&mut canvas, &dec, px, py);
        proof {
            assert forall|i: int|
                0 <= i < idx + 1 implies decoded_tile_ok(#[trigger] tiles@[i]) && tile_placed(
                canvas, tiles@[i], x0, y0) by {
                if i < idx {
                    let t2 = tiles@[i];
                    assert(t2.x == x0 + i / ny);
                    assert(t2.y == y0 + i % ny);
                    lemma_div_pos_is_pos(i, ny);
                    lemma_mod_bound(i, ny);
                    lemma_multiply_divide_lt(i, ny, nx);
                    assert forall|u: int, v: int, k: int|
                        0 <= u < TILE_SIZE_PX && 0 <= v < TILE_SIZE_PX && 0 <= k < 4 implies
                        canvas.data@[byte_at(canvas.width as int, (t2.x - x0) * TILE_SIZE_PX
                            + u, (t2.y - y0) * TILE_SIZE_PX + v, k)] == png_decoded(
                        t2.bytes@)->Some_0.2[#[trigger] byte_at(TILE_SIZE_PX as int, u, v,
                        k)] by {
                        lemma_grid_order_keys_distinct(tiles@, bx, i, idx as int);
                        assert(pre_canvas.data@[byte_at(canvas.width as int, (t2.x - x0)
                            * TILE_SIZE_PX + u, (t2.y - y0) * TILE_SIZE_PX + v, k)]
                            == png_decoded(t2.bytes@)->Some_0.2[byte_at(TILE_SIZE_PX as int, u,
                            v, k)]);
                    }
                } else {
                    assert(decoded_tile_ok(tiles@[i]));
                    assert forall|u: int, v: int, k: int|
                        0 <= u < TILE_SIZE_PX && 0 <= v < TILE_SIZE_PX && 0 <= k < 4 implies
                        canvas.data@[byte_at(canvas.width as int, (tiles@[i].x - x0)
                            * TILE_SIZE_PX + u, (tiles@[i].y - y0) * TILE_SIZE_PX + v, k)]
                            == png_decoded(tiles@[i].bytes@)->Some_0.2[#[trigger] byte_at(
                            TILE_SIZE_PX as int, u, v, k)] by {
                        assert(canvas.data@[byte_at(canvas.width as int, px + u, py + v, k)]
                            == dec.data@[byte_at(dec.width as int, u, v, k)]);
                    }
                }
            }
        }
        idx = idx + 1;
    }
    Ok(canvas)
}

/// The pixel column of the box's centre point, measured from the canvas
/// origin (the box's top-left whole tile).
pub open spec fn crop_center_px_x(cbox: ConstrainedTileBox) -> int {
    (tile_x_spec(cbox.center, cbox.tile_box.top_left.z) - grid_x0(cbox.tile_box)
        * COORD_SCALE as int) * TILE_SIZE_PX as int / COORD_SCALE as int
}

/// The pixel row of the box's centre point, measured from the canvas origin.
pub open spec fn crop_center_px_y(cbox: ConstrainedTileBox) -> int {
    (tile_y_spec(cbox.center, cbox.tile_box.top_left.z) - grid_y0(cbox.tile_box)
        * COORD_SCALE as int) * TILE_SIZE_PX as int / COORD_SCALE as int
}

/// The left edge of the crop window: the centre pixel minus half the inner
/// width.
pub open spec fn crop_origin_x(cbox: ConstrainedTileBox) -> int {
    crop_center_px_x(cbox) - cbox.inner_size_px.0 / 2
}

/// The top edge of the crop window.
pub open spec fn crop_origin_y(cbox: ConstrainedTileBox) -> int {
    crop_center_px_y(cbox) - cbox.inner_size_px.1 / 2
}

/// The crop window lies inside a `w` x `h` canvas: the centre is east and
/// south of the canvas origin, at least half the inner size from its west
/// and north edges, and the window's far corner stays inside.
pub open spec fn crop_ok(cbox: ConstrainedTileBox, w: int, h: int) -> bool {
    &&& tile_x_spec(cbox.center, cbox.tile_box.top_left.z) >= grid_x0(cbox.tile_box)
        * COORD_SCALE as int
    &&& tile_y_spec(cbox.center, cbox.tile_box.top_left.z) >= grid_y0(cbox.tile_box)
        * COORD_SCALE as int
    &&& crop_origin_x(cbox) >= 0
    &&& crop_origin_y(cbox) >= 0
    &&& crop_origin_x(cbox) + cbox.inner_size_px.0 <= w
    &&& crop_origin_y(cbox) + cbox.inner_size_px.1 <= h
}

/// Recomputes the centre point's exact pixel position on the canvas and
/// crops the inner-size window centred there. A window that would start
/// before the canvas origin or reach past its edges is a geometry failure,
/// reported rather than wrapped or clamped.
pub fn crop_centered(canvas: &Raster, cbox: &ConstrainedTileBox) -> (r: Result<Raster, MapError>)
    requires
        canvas.wf(),
        cbox.wf(),
        4 * cbox.inner_size_px.0 * cbox.inner_size_px.1 <= usize::MAX,
    ensures
        match r {
            Ok(out) => {
                &&& crop_ok(*cbox, canvas.width as int, canvas.height as int)
                &&& out.wf()
                &&& out.width == cbox.inner_size_px.0
                &&& out.height == cbox.inner_size_px.1
                &&& forall|u: int, v: int, k: int|
                    0 <= u < out.width && 0 <= v < out.height && 0 <= k < 4 ==> out.data@[
                        byte_at(out.width as int, u, v, k)] == canvas.data@[#[trigger] byte_at(
                        canvas.width as int,
                        crop_origin_x(*cbox) + u,
                        crop_origin_y(*cbox) + v,
                        k,
                    )]
            },
            Err(e) => {
                &&& e == MapError::Geometry
                &&& !crop_ok(*cbox, canvas.width as int, canvas.height as int)
            },
        },
{
    let z = cbox.tile_box.top_left.z;
    let center_tile = point_to_tile_coords(&cbox.center, z);
    let (x0_u, y0_u) = cbox.tile_box.outer_top_left();
    proof {
        lemma_fundamental_div_mod(cbox.tile_box.top_left.x as int, COORD_SCALE as int);
        lemma_fundamental_div_mod(cbox.tile_box.top_left.y as int, COORD_SCALE as int);
        lemma_mul_is_commutative(x0_u as int, COORD_SCALE as int);
        lemma_mul_is_commutative(y0_u as int, COORD_SCALE as int);
        lemma2_to64();
        lemma2_to64_rest();
        if z + 32 < 53 {
            lemma_pow2_strictly_increases((z + 32) as nat, 53nat);
        }
    }
    let ox0: u64 = (x0_u as u64) * COORD_SCALE;
    let oy0: u64 = (y0_u as u64) * COORD_SCALE;
    let center_x: u64 = center_tile.x as u64;
    let center_y: u64 = center_tile.y as u64;
    let rel_x: u64 = match center_x.checked_sub(ox0) {
        Some(v) => v,
        None => {
            return Err(MapError::Geometry);
        },
    };
    let rel_y: u64 = match center_y.checked_sub(oy0) {
        Some(v) => v,
        None => {
            return Err(MapError::Geometry);
        },
    };
    proof {
        // the centre coordinate stays under 2^53, so scaling it by the
        // tile's pixel edge fits in u64
        assert(center_tile.x < pow2((z + 32) as nat));
        assert(pow2((z + 32) as nat) <= pow2(53nat));
        assert(pow2(53nat) == 0x20000000000000);
        assert(rel_x <= center_x);
    }
    let cpx: u64 = rel_x * (TILE_SIZE_PX as u64) / COORD_SCALE;
    let cpy: u64 = rel_y * (TILE_SIZE_PX as u64) / COORD_SCALE;
    let inner_w = cbox.inner_size_px.0;
    let inner_h = cbox.inner_size_px.1;
    let half_w: u64 = (inner_w / 2) as u64;
    let half_h: u64 = (inner_h / 2) as u64;
    if cpx < half_w || cpy < half_h {
        return Err(MapError::Geometry);
    }
    let ox: u64 = cpx - half_w;
    let oy: u64 = cpy - half_h;
    if ox + inner_w as u64 > canvas.width as u64 || oy + inner_h as u64 > canvas.height as u64 {
        return Err(MapError::Geometry);
    }
    let out = crop(canvas, ox as u32, oy as u32, inner_w, inner_h);
    Ok(out)
}

/// The byte string of the final image before encoding: for each output
/// byte, the matching byte of the decoded tile that covers its position on
/// the canvas.
pub open spec fn composed_data(tiles: Seq<TileFetch>, cbox: ConstrainedTileBox) -> Seq<u8> {
    let b = cbox.tile_box;
    let w = cbox.inner_size_px.0 as int;
    let ox = crop_origin_x(cbox);
    let oy = crop_origin_y(cbox);
    Seq::new((4 * cbox.inner_size_px.0 * cbox.inner_size_px.1) as nat,
        |j: int|
            {
                let p = j / 4;
                let k = j % 4;
                let gx = ox + p % w;
                let gy = oy + p / w;
                let ti = (gx / TILE_SIZE_PX as int) * grid_ny(b) + gy / TILE_SIZE_PX as int;
                png_decoded(tiles[ti].bytes@)->Some_0.2[byte_at(TILE_SIZE_PX as int, gx
                    % TILE_SIZE_PX as int, gy % TILE_SIZE_PX as int, k)]
            },
    )
}

/// Builds the final encoded image from the fetched tiles: stitches them
/// into a canvas, crops the inner-size window centred on the box's centre
/// point, and encodes the result as PNG. Success is owed: the call fails
/// with `Decode` exactly when some tile's bytes are not a 256 x 256
/// raster, with `Geometry` exactly when (all tiles being good) the crop
/// window falls outside the canvas, and otherwise returns the encoded
/// image, which — whenever the inner size stays within the decoder's
/// allocation cap — decodes back to exactly the inner-size composition.
#[verifier::loop_isolation(false)]
pub fn compose_image(tiles: &Vec<TileFetch>, cbox: &ConstrainedTileBox) -> (r: Result<
    Vec<u8>,
    MapError,
>)
    requires
        cbox.wf(),
        tiles_in_grid_order(tiles@, cbox.tile_box),
        cbox.inner_size_px.0 >= 1,
        cbox.inner_size_px.1 >= 1,
        TILE_SIZE_PX * grid_nx(cbox.tile_box) <= u32::MAX,
        TILE_SIZE_PX * grid_ny(cbox.tile_box) <= u32::MAX,
        4 * (TILE_SIZE_PX * grid_nx(cbox.tile_box)) * (TILE_SIZE_PX * grid_ny(cbox.tile_box))
            <= usize::MAX,
        4 * cbox.inner_size_px.0 * cbox.inner_size_px.1 <= usize::MAX,
    ensures
        match r {
            Ok(bytes) => {
                &&& forall|i: int| 0 <= i < tiles@.len() ==> decoded_tile_ok(#[trigger] tiles@[i])
                &&& crop_ok(*cbox, TILE_SIZE_PX * grid_nx(cbox.tile_box),
                    TILE_SIZE_PX * grid_ny(cbox.tile_box))
                &&& bytes@ == png_encoded(cbox.inner_size_px.0, cbox.inner_size_px.1,
                    composed_data(tiles@, *cbox))
                &&& (cbox.inner_size_px.0 <= PNG_ROUND_TRIP_MAX_EDGE_PX
                    && cbox.inner_size_px.1 <= PNG_ROUND_TRIP_MAX_EDGE_PX ==> png_decoded(
                    bytes@) == Some(
                    (cbox.inner_size_px.0, cbox.inner_size_px.1, composed_data(tiles@, *cbox)),
                ))
            },
            Err(e) => {
                &&& (e == MapError::Decode <==> exists|i: int|
                    0 <= i < tiles@.len() && !decoded_tile_ok(#[trigger] tiles@[i]))
                &&& (e == MapError::Geometry ==> !crop_ok(*cbox, TILE_SIZE_PX * grid_nx(
                    cbox.tile_box), TILE_SIZE_PX * grid_ny(cbox.tile_box)))
                &&& (e == MapError::Decode || e == MapError::Geometry)
            },
        },
        (forall|i: int| 0 <= i < tiles@.len() ==> decoded_tile_ok(#[trigger] tiles@[i]))
            && crop_ok(*cbox, TILE_SIZE_PX * grid_nx(cbox.tile_box),
            TILE_SIZE_PX * grid_ny(cbox.tile_box)) ==> r is Ok,
{
    let canvas = match stitch(tiles, &cbox.tile_box) {
        Ok(c) => c,
        Err(e) => {
            return Err(e);
        },
    };
    let out = match crop_centered(&canvas, cbox) {
        Ok(o) => o,
        Err(e) => {
            return Err(e);
        },
    };
    let bytes_res = encode_png(&out);
    let bytes = bytes_res.unwrap();
    proof {
        lemma_composed_data_matches(tiles@, *cbox, canvas, out);
    }
    Ok(bytes)
}

/// The cropped window of a stitched canvas is exactly the composed byte
/// string: each output byte is the matching byte of the decoded tile that
/// covers its canvas position.
proof fn lemma_composed_data_matches(
    tiles: Seq<TileFetch>,
    cbox: ConstrainedTileBox,
    canvas: Raster,
    out: Raster,
)
    requires
        tiles_in_grid_order(tiles, cbox.tile_box),
        canvas.wf(),
        canvas.width == TILE_SIZE_PX * grid_nx(cbox.tile_box),
        canvas.height == TILE_SIZE_PX * grid_ny(cbox.tile_box),
        forall|i: int|
            0 <= i < tiles.len() ==> decoded_tile_ok(#[trigger] tiles[i]) && tile_placed(
                canvas, tiles[i], grid_x0(cbox.tile_box), grid_y0(cbox.tile_box)),
        crop_ok(cbox, canvas.width as int, canvas.height as int),
        out.width == cbox.inner_size_px.0,
        out.height == cbox.inner_size_px.1,
        out.wf(),
        forall|u: int, v: int, k: int|
            0 <= u < out.width && 0 <= v < out.height && 0 <= k < 4 ==> out.data@[byte_at(
                out.width as int, u, v, k)] == canvas.data@[#[trigger] byte_at(
                canvas.width as int,
                crop_origin_x(cbox) + u,
                crop_origin_y(cbox) + v,
                k,
            )],
    ensures
        out.data@ == composed_data(tiles, cbox),
{
    let b = cbox.tile_box;
    let w = cbox.inner_size_px.0 as int;
    let h = cbox.inner_size_px.1 as int;
    let ox = crop_origin_x(cbox);
    let oy = crop_origin_y(cbox);
    let nx = grid_nx(b);
    let ny = grid_ny(b);
    let x0 = grid_x0(b);
    let y0 = grid_y0(b);
    let m = composed_data(tiles, cbox);
    assert(out.data@.len() == m.len());
    assert forall|j: int| 0 <= j < m.len() implies out.data@[j] == m[j] by {
        let p = j / 4;
        let k = j % 4;
        let u = p % w;
        let v = p / w;
        // j is byte k of output pixel (u, v)
        lemma_mod_bound(j, 4);
        lemma_mod_bound(p, w);
        lemma_div_pos_is_pos(j, 4);
        lemma_div_pos_is_pos(p, w);
        lemma_fundamental_div_mod(j, 4);
        lemma_fundamental_div_mod(p, w);
        lemma_mul_is_associative(4, w, h);
        lemma_multiply_divide_lt(j, 4, w * h);
        lemma_multiply_divide_lt(p, w, h);
        lemma_mul_is_commutative(w, v);
        assert(byte_at(w, u, v, k) == j);
        let gx = ox + u;
        let gy = oy + v;
        // the covering tile's grid cell, counted from the canvas origin
        let a = gx / TILE_SIZE_PX as int;
        let c = gy / TILE_SIZE_PX as int;
        let ti = a * ny + c;
        assert(0 <= gx < canvas.width);
        assert(0 <= gy < canvas.height);
        lemma_div_pos_is_pos(gx, TILE_SIZE_PX as int);
        lemma_div_pos_is_pos(gy, TILE_SIZE_PX as int);
        lemma_mul_is_commutative(TILE_SIZE_PX as int, nx);
        lemma_mul_is_commutative(TILE_SIZE_PX as int, ny);
        lemma_multiply_divide_lt(gx, TILE_SIZE_PX as int, nx);
        lemma_multiply_divide_lt(gy, TILE_SIZE_PX as int, ny);
        lemma_mul_inequality(a, nx - 1, ny);
        lemma_mul_is_distributive_add_other_way(ny, nx - 1, 1);
        lemma_mul_is_commutative(nx, ny);
        assert(0 <= ti < tiles.len());
        lemma_fundamental_div_mod_converse(ti, ny, a, c);
        assert(tiles[ti].x - x0 == a);
        assert(tiles[ti].y - y0 == c);
        lemma_mul_is_commutative(a, TILE_SIZE_PX as int);
        lemma_mul_is_commutative(c, TILE_SIZE_PX as int);
        let uu = gx % TILE_SIZE_PX as int;
        let vv = gy % TILE_SIZE_PX as int;
        lemma_mod_bound(gx, TILE_SIZE_PX as int);
        lemma_mod_bound(gy, TILE_SIZE_PX as int);
        lemma_fundamental_div_mod(gx, TILE_SIZE_PX as int);
        lemma_fundamental_div_mod(gy, TILE_SIZE_PX as int);
        assert((tiles[ti].x - x0) * TILE_SIZE_PX + uu == gx);
        assert((tiles[ti].y - y0) * TILE_SIZE_PX + vv == gy);
        assert(tile_placed(canvas, tiles[ti], x0, y0));
        assert(canvas.data@[byte_at(canvas.width as int, gx, gy, k)] == png_decoded(
            tiles[ti].bytes@)->Some_0.2[byte_at(TILE_SIZE_PX as int, uu, vv, k)]);
        assert(out.data@[byte_at(w, u, v, k)] == canvas.data@[byte_at(canvas.width as int, gx,
            gy, k)]);
    }
    assert(out.data@ =~= m);
}

} // verus!
