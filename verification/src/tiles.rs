//! Tile sources, tile URLs, and the enumeration and collection of the tiles
//! that cover a box. The network itself lives outside the library; callers
//! fetch each enumerated index and hand the results back to
//! `collect_tile_results`.

use vstd::prelude::*;

verus! {

use vstd::string::*;
use vstd::arithmetic::div_mod::{lemma_fundamental_div_mod_converse, lemma_div_is_ordered,
    lemma_fundamental_div_mod, lemma_div_pos_is_pos, lemma_multiply_divide_lt,
    lemma_div_by_multiple, lemma_mod_bound, lemma_small_mod};
use vstd::arithmetic::mul::{lemma_mul_is_commutative, lemma_mul_inequality};
use vstd::seq_lib::seq_to_set_is_finite;
use vstd::set::axiom_set_insert_len;
use vstd::arithmetic::mul::lemma_mul_is_distributive_add_other_way;
use crate::coordinates::{TileBox, COORD_SCALE, ceil_tile, clamp0};
use crate::errors::MapError;

/// A tile provider: an identifier resolving to a URL template with `{z}`,
/// `{x}` and `{y}` placeholders.
#[derive(Debug, Clone, Copy, PartialEq, Eq, Structural)]
pub enum TileSet {
    OSM,
    Swisstopo,
}

impl TileSet {
    /// The provider's URL template.
    pub fn url_pattern(&self) -> (r: &str)
        ensures
            self is OSM ==> r@ == "https://tile.openstreetmap.org/{z}/{x}/{y}.png"@,
            self is Swisstopo ==> r@
                == "https://wmts.geo.admin.ch/1.0.0/ch.swisstopo.landeskarte-farbe-10/default/current/3857/{z}/{x}/{y}.png"@,
    {
        match self {
            TileSet::OSM => "https://tile.openstreetmap.org/{z}/{x}/{y}.png",
            TileSet::Swisstopo => "https://wmts.geo.admin.ch/1.0.0/ch.swisstopo.landeskarte-farbe-10/default/current/3857/{z}/{x}/{y}.png",
        }
    }

    /// The source a request names: `swisstopo` picks the alternate source,
    /// and any other value falls back to the default, deliberately
    /// permissive.
    pub fn from_name(name: &str) -> (t: TileSet)
        ensures
            name@ == "swisstopo"@ ==> t is Swisstopo,
            name@ != "swisstopo"@ ==> t is OSM,
    {
        if str_eq_chars(name, "swisstopo") {
            TileSet::Swisstopo
        } else {
            TileSet::OSM
        }
    }
}

/// Character-by-character string comparison.
pub fn str_eq_chars(a: &str, b: &str) -> (r: bool)
    ensures
        r == (a@ == b@),
{
    let n = a.unicode_len();
    if n != b.unicode_len() {
        proof {
            assert(a@ != b@) by {
                assert(a@.len() != b@.len());
            }
        }
        return false;
    }
    let mut i: usize = 0;
    while i < n
        invariant
            n == a@.len() && n == b@.len(),
            i <= n,
            forall|j: int| 0 <= j < i ==> a@[j] == b@[j],
        decreases n - i,
    {
        if a.get_char(i) != b.get_char(i) {
            return false;
        }
        i = i + 1;
    }
    proof {
        assert(a@ =~= b@);
    }
    true
}

/// Whether a response's declared content type is the expected raster image
/// type for a tile.
pub fn is_png_content_type(content_type: &str) -> (r: bool)
    ensures
        r == (content_type@ == "image/png"@),
{
    str_eq_chars(content_type, "image/png")
}

/// The decimal digit character for `d`.
pub open spec fn digit_char(d: int) -> char {
    if d == 0 {
        '0'
    } else if d == 1 {
        '1'
    } else if d == 2 {
        '2'
    } else if d == 3 {
        '3'
    } else if d == 4 {
        '4'
    } else if d == 5 {
        '5'
    } else if d == 6 {
        '6'
    } else if d == 7 {
        '7'
    } else if d == 8 {
        '8'
    } else {
        '9'
    }
}

/// The decimal rendering of `n`, most significant digit first.
pub open spec fn dec_spec(n: nat) -> Seq<char>
    decreases n,
{
    if n < 10 {
        seq![digit_char(n as int)]
    } else {
        dec_spec(n / 10) + seq![digit_char((n % 10) as int)]
    }
}

/// One decimal digit as a string.
fn digit_str(d: u32) -> (r: &'static str)
    requires
        d < 10,
    ensures
        r@ == seq![digit_char(d as int)],
{
    proof {
        reveal_strlit("0");
        reveal_strlit("1");
        reveal_strlit("2");
        reveal_strlit("3");
        reveal_strlit("4");
        reveal_strlit("5");
        reveal_strlit("6");
        reveal_strlit("7");
        reveal_strlit("8");
        reveal_strlit("9");
    }
    let r = match d {
        0 => "0",
        1 => "1",
        2 => "2",
        3 => "3",
        4 => "4",
        5 => "5",
        6 => "6",
        7 => "7",
        8 => "8",
        _ => "9",
    };
    proof {
        assert(r@ =~= seq![digit_char(d as int)]);
    }
    r
}

/// Renders `n` in decimal.
pub fn u32_to_dec(n: u32) -> (s: String)
    ensures
        s@ == dec_spec(n as nat),
{
    let mut digits: Vec<u32> = Vec::new();
    let mut m: u32 = n;
    loop
        invariant_except_break
            digits@.len() == 0 ==> m == n,
            digits@.len() > 0 ==> m > 0,
            digits@.len() > 0 ==> dec_spec(n as nat) == dec_spec(m as nat)
                + digits_tail(digits@),
        invariant
            m <= n,
            forall|j: int| 0 <= j < digits@.len() ==> #[trigger] digits@[j] < 10,
        ensures
            forall|j: int| 0 <= j < digits@.len() ==> #[trigger] digits@[j] < 10,
            dec_spec(n as nat) == digits_tail(digits@),
        decreases m,
    {
        let d: u32 = m % 10;
        let next: u32 = m / 10;
        let ghost old_digits = digits@;
        let ghost old_m = m;
        digits.push(d);
        proof {
            assert(digits_tail(digits@) =~= seq![digit_char(d as int)] + digits_tail(
                old_digits));
            if next > 0 {
                assert(dec_spec(old_m as nat) == dec_spec(next as nat) + seq![digit_char(
                    d as int)]);
                if old_digits.len() == 0 {
                    assert(dec_spec(n as nat) =~= dec_spec(next as nat) + digits_tail(
                        digits@));
                } else {
                    assert(dec_spec(n as nat) =~= dec_spec(next as nat) + digits_tail(
                        digits@));
                }
            } else {
                assert(dec_spec(old_m as nat) == seq![digit_char(d as int)]);
                if old_digits.len() == 0 {
                    assert(dec_spec(n as nat) =~= digits_tail(digits@));
                } else {
                    assert(dec_spec(n as nat) =~= digits_tail(digits@));
                }
            }
        }
        m = next;
        if m == 0 {
            break;
        }
    }
    let mut s = String::new();
    let mut i: usize = digits.len();
    while i > 0
        invariant
            forall|j: int| 0 <= j < digits@.len() ==> #[trigger] digits@[j] < 10,
            i <= digits@.len(),
            s@ =~= digits_tail(digits@).take(digits@.len() - i),
        decreases i,
    {
        i = i - 1;
        s.append(digit_str(digits[i]));
        proof {
            assert(s@ =~= digits_tail(digits@).take(digits@.len() - i));
        }
    }
    proof {
        assert(digits_tail(digits@).take(digits@.len() as int) =~= digits_tail(digits@));
    }
    s
}

/// The characters of the collected digits, most significant first: the
/// digits were collected least significant first, so the tail reads them
/// back to front.
pub open spec fn digits_tail(digits: Seq<u32>) -> Seq<char> {
    Seq::new(digits.len(), |j: int| digit_char(digits[digits.len() - 1 - j] as int))
}

/// The part of a source's URL that precedes the `{z}/{x}/{y}.png` indices.
pub open spec fn url_prefix_spec(t: TileSet) -> Seq<char> {
    match t {
        TileSet::OSM => "https://tile.openstreetmap.org/"@,
        TileSet::Swisstopo => "https://wmts.geo.admin.ch/1.0.0/ch.swisstopo.landeskarte-farbe-10/default/current/3857/"@,
    }
}

/// The URL of one tile: the source's template with the integer indices
/// substituted for `{z}`, `{x}` and `{y}`.
pub open spec fn tile_url_spec(t: TileSet, x: u32, y: u32, z: u32) -> Seq<char> {
    url_prefix_spec(t) + dec_spec(z as nat) + "/"@ + dec_spec(x as nat) + "/"@ + dec_spec(
        y as nat) + ".png"@
}

/// Resolves the URL for the tile at integer indices (x, y) and zoom `z`
/// against `t`'s template.
pub fn tile_url(t: TileSet, x: u32, y: u32, z: u32) -> (r: String)
    ensures
        r@ == tile_url_spec(t, x, y, z),
{
    let mut s: String = match t {
        TileSet::OSM => "https://tile.openstreetmap.org/".to_owned(),
        TileSet::Swisstopo => "https://wmts.geo.admin.ch/1.0.0/ch.swisstopo.landeskarte-farbe-10/default/current/3857/".to_owned(),
    };
    let zs = u32_to_dec(z);
    s.append(zs.as_str());
    s.append("/");
    let xs = u32_to_dec(x);
    s.append(xs.as_str());
    s.append("/");
    let ys = u32_to_dec(y);
    s.append(ys.as_str());
    s.append(".png");
    proof {
        assert(s@ =~= tile_url_spec(t, x, y, z));
    }
    s
}

/// First whole-tile column of the box, saturating at the map's west edge.
pub open spec fn grid_x0(b: TileBox) -> int {
    clamp0(b.top_left.x as int / COORD_SCALE as int)
}

/// First whole-tile row of the box, saturating at the map's north edge.
pub open spec fn grid_y0(b: TileBox) -> int {
    clamp0(b.top_left.y as int / COORD_SCALE as int)
}

/// Last whole-tile column of the box (the ceiling of the fractional
/// corner), saturating at the map's west edge.
pub open spec fn grid_x1(b: TileBox) -> int {
    clamp0(ceil_tile(b.bottom_right.x))
}

/// Last whole-tile row of the box, saturating at the map's north edge.
pub open spec fn grid_y1(b: TileBox) -> int {
    clamp0(ceil_tile(b.bottom_right.y))
}

/// How many whole-tile columns the box covers.
pub open spec fn grid_nx(b: TileBox) -> int {
    grid_x1(b) - grid_x0(b) + 1
}

/// How many whole-tile rows the box covers.
pub open spec fn grid_ny(b: TileBox) -> int {
    grid_y1(b) - grid_y0(b) + 1
}

/// Enumerates every integer tile index in the inclusive range
/// `[floor(topLeft), ceil(bottomRight)]` on both axes, column by column:
/// exactly `grid_nx * grid_ny` indices, each exactly once.
pub fn tile_box_indices(b: &TileBox) -> (r: Vec<(u32, u32)>)
    requires
        b.wf(),
    ensures
        r@.len() == grid_nx(*b) * grid_ny(*b),
        forall|i: int|
            0 <= i < r@.len() ==> (#[trigger] r@[i]).0 == grid_x0(*b) + i / grid_ny(*b)
                && r@[i].1 == grid_y0(*b) + i % grid_ny(*b),
{
    let (x0, y0) = b.outer_top_left();
    let (x1, y1) = b.outer_bottom_right();
    proof {
        lemma_div_is_ordered(b.top_left.x as int, b.bottom_right.x as int, COORD_SCALE as int);
        lemma_div_is_ordered(b.bottom_right.x as int, (b.bottom_right.x + COORD_SCALE
            - 1) as int, COORD_SCALE as int);
        lemma_div_is_ordered(b.top_left.y as int, b.bottom_right.y as int, COORD_SCALE as int);
        lemma_div_is_ordered(b.bottom_right.y as int, (b.bottom_right.y + COORD_SCALE
            - 1) as int, COORD_SCALE as int);
    }
    let ghost ny = grid_ny(*b);
    let mut r: Vec<(u32, u32)> = Vec::new();
    let mut x: u32 = x0;
    while x <= x1
        invariant
            b.wf(),
            x0 == grid_x0(*b) && y0 == grid_y0(*b) && x1 == grid_x1(*b) && y1 == grid_y1(*b),
            ny == grid_ny(*b),
            x0 <= x <= x1 + 1,
            x1 < u32::MAX,
            y1 < u32::MAX,
            r@.len() == (x - x0) * ny,
            forall|i: int|
                0 <= i < r@.len() ==> (#[trigger] r@[i]).0 == grid_x0(*b) + i / grid_ny(*b)
                    && r@[i].1 == grid_y0(*b) + i % grid_ny(*b),
        decreases x1 + 1 - x,
    {
        let mut y: u32 = y0;
        while y <= y1
            invariant
                b.wf(),
                x0 == grid_x0(*b) && y0 == grid_y0(*b) && x1 == grid_x1(*b) && y1 == grid_y1(
                    *b),
                ny == grid_ny(*b),
                x0 <= x <= x1,
                y0 <= y <= y1 + 1,
                y1 < u32::MAX,
                r@.len() == (x - x0) * ny + (y - y0),
                forall|i: int|
                    0 <= i < r@.len() ==> (#[trigger] r@[i]).0 == grid_x0(*b) + i / grid_ny(*b)
                        && r@[i].1 == grid_y0(*b) + i % grid_ny(*b),
            decreases y1 + 1 - y,
        {
            proof {
                lemma_fundamental_div_mod_converse(((x - x0) * ny + (y - y0)) as int, ny,
                    (x - x0) as int, (y - y0) as int);
            }
            r.push((x, y));
            y = y + 1;
        }
        proof {
            lemma_mul_is_distributive_add_other_way(ny, (x - x0) as int, 1);
        }
        x = x + 1;
    }
    r
}

/// One fetched tile: its integer indices and the raw bytes that came back.
#[derive(Debug, Clone)]
pub struct TileFetch {
    pub x: u32,
    pub y: u32,
    pub z: u32,
    pub bytes: Vec<u8>,
}

/// What a failed tile request left behind: a description of the failure.
#[derive(Debug, Clone)]
pub struct FetchFailure {
    pub message: String,
}

/// Whether two fetched tiles carry the same indices and the same bytes.
pub open spec fn tile_fetch_matches(a: TileFetch, b: TileFetch) -> bool {
    a.x == b.x && a.y == b.y && a.z == b.z && a.bytes@ == b.bytes@
}

/// Scans the per-tile fetch results once every fetch has finished. If any
/// tile failed, the whole operation fails with the first failure seen, and
/// no partial tile collection is handed on; otherwise every tile's payload
/// is returned, in order.
pub fn collect_tile_results(results: &Vec<Result<TileFetch, FetchFailure>>) -> (r: Result<
    Vec<TileFetch>,
    MapError,
>)
    ensures
        match r {
            Ok(tiles) => {
                &&& tiles@.len() == results@.len()
                &&& forall|i: int|
                    0 <= i < results@.len() ==> ((#[trigger] results@[i]) matches Ok(t)
                        && tile_fetch_matches(tiles@[i], t))
            },
            Err(e) => exists|i: int|
                0 <= i < results@.len() && (((#[trigger] results@[i]) matches Err(f) && (
                e matches MapError::TileFetch(m) && m@ == f.message@))) && (forall|j: int|
                    0 <= j < i ==> results@[j] is Ok),
        },
{
    let mut tiles: Vec<TileFetch> = Vec::new();
    let mut i: usize = 0;
    while i < results.len()
        invariant
            i <= results@.len(),
            tiles@.len() == i,
            forall|j: int|
                0 <= j < i ==> ((#[trigger] results@[j]) matches Ok(t) && tile_fetch_matches(
                    tiles@[j], t)),
        decreases results@.len() - i,
    {
        match &results[i] {
            Ok(t) => {
                tiles.push(TileFetch { x: t.x, y: t.y, z: t.z, bytes: t.bytes.clone() });
            },
            Err(f) => {
                proof {
                    assert(forall|j: int| 0 <= j < i ==> (#[trigger] results@[j]) is Ok);
                }
                return Err(MapError::TileFetch(f.message.clone()));
            },
        }
        i = i + 1;
    }
    Ok(tiles)
}

/// The tile collection that covers a box, in the order `tile_box_indices`
/// enumerates it: tile `i` carries the indices of grid cell `i`, column by
/// column, and the box's zoom.
pub open spec fn tiles_in_grid_order(tiles: Seq<TileFetch>, b: TileBox) -> bool {
    &&& tiles.len() == grid_nx(b) * grid_ny(b)
    &&& forall|i: int|
        0 <= i < tiles.len() ==> (#[trigger] tiles[i]).x == grid_x0(b) + i / grid_ny(b)
            && tiles[i].y == grid_y0(b) + i % grid_ny(b) && tiles[i].z == b.top_left.z
}

/// In a grid-ordered collection no two tiles carry the same indices.
pub proof fn lemma_grid_order_keys_distinct(tiles: Seq<TileFetch>, b: TileBox, i: int, j: int)
    requires
        tiles_in_grid_order(tiles, b),
        0 <= i < tiles.len(),
        0 <= j < tiles.len(),
        i != j,
    ensures
        tiles[i].x != tiles[j].x || tiles[i].y != tiles[j].y,
{
    if tiles[i].x == tiles[j].x && tiles[i].y == tiles[j].y {
        lemma_fundamental_div_mod(i, grid_ny(b));
        lemma_fundamental_div_mod(j, grid_ny(b));
    }
}

/// The x index of every tile in a collection.
pub fn collect_xs(tiles: &Vec<TileFetch>) -> (r: Vec<u32>)
    ensures
        r@ == tiles@.map_values(|t: TileFetch| t.x),
{
    let mut r: Vec<u32> = Vec::new();
    let mut i: usize = 0;
    while i < tiles.len()
        invariant
            i <= tiles@.len(),
            r@.len() == i,
            forall|j: int| 0 <= j < i ==> r@[j] == (#[trigger] tiles@[j]).x,
        decreases tiles@.len() - i,
    {
        r.push(tiles[i].x);
        i = i + 1;
    }
    proof {
        assert(r@ =~= tiles@.map_values(|t: TileFetch| t.x));
    }
    r
}

/// The y index of every tile in a collection.
pub fn collect_ys(tiles: &Vec<TileFetch>) -> (r: Vec<u32>)
    ensures
        r@ == tiles@.map_values(|t: TileFetch| t.y),
{
    let mut r: Vec<u32> = Vec::new();
    let mut i: usize = 0;
    while i < tiles.len()
        invariant
            i <= tiles@.len(),
            r@.len() == i,
            forall|j: int| 0 <= j < i ==> r@[j] == (#[trigger] tiles@[j]).y,
        decreases tiles@.len() - i,
    {
        r.push(tiles[i].y);
        i = i + 1;
    }
    proof {
        assert(r@ =~= tiles@.map_values(|t: TileFetch| t.y));
    }
    r
}

/// How many distinct values a list holds.
#[verifier::loop_isolation(false)]
pub fn count_distinct(vals: &Vec<u32>) -> (n: usize)
    ensures
        n == vals@.to_set().len(),
{
    let mut n: usize = 0;
    let mut i: usize = 0;
    proof {
        vals@.take(0).lemma_cardinality_of_empty_set_is_0();
    }
    while i < vals.len()
        invariant
            i <= vals@.len(),
            n <= i,
            n == vals@.take(i as int).to_set().len(),
        decreases vals@.len() - i,
    {
        let x = vals[i];
        let mut seen = false;
        let mut j: usize = 0;
        while j < i
            invariant
                j <= i,
                seen == (exists|j2: int| 0 <= j2 < j && vals@[j2] == x),
            decreases i - j,
        {
            if vals[j] == x {
                seen = true;
            }
            j = j + 1;
        }
        proof {
            let prefix = vals@.take(i as int);
            let prefix1 = vals@.take(i as int + 1);
            seq_to_set_is_finite::<u32>(prefix);
            assert(prefix1 =~= prefix.push(x));
            assert forall|e: u32| #[trigger] prefix1.to_set().contains(e) implies
                prefix.to_set().contains(e) || e == x by {
                let idx = choose|idx: int| 0 <= idx < prefix1.len() && prefix1[idx] == e;
                if idx < i {
                    assert(prefix[idx] == e);
                }
            }
            assert forall|e: u32| prefix.to_set().contains(e) || e == x implies #[trigger]
                prefix1.to_set().contains(e) by {
                if prefix.to_set().contains(e) {
                    let idx = choose|idx: int| 0 <= idx < prefix.len() && prefix[idx] == e;
                    assert(prefix1[idx] == e);
                } else {
                    assert(prefix1[i as int] == x);
                }
            }
            assert(prefix1.to_set() =~= prefix.to_set().insert(x));
            axiom_set_insert_len(prefix.to_set(), x);
            if seen {
                let j2 = choose|j2: int| 0 <= j2 < i && vals@[j2] == x;
                assert(prefix[j2] == x);
                assert(prefix.to_set().contains(x));
            } else {
                if prefix.to_set().contains(x) {
                    let idx = choose|idx: int| 0 <= idx < prefix.len() && prefix[idx] == x;
                    assert(vals@[idx] == x);
                }
            }
        }
        if !seen {
            n = n + 1;
        }
        i = i + 1;
    }
    proof {
        assert(vals@.take(vals@.len() as int) =~= vals@);
    }
    n
}

/// The distinct values of a sequence that walks `base + i / step` over a
/// full `cnt * step` grid: exactly `cnt` of them, `base` through
/// `base + cnt - 1`.
pub proof fn lemma_div_pattern_card(m: Seq<u32>, base: int, cnt: int, step: int)
    requires
        m.len() == cnt * step,
        cnt >= 1,
        step >= 1,
        0 <= base,
        base + cnt <= 0xffffffff,
        forall|i: int| 0 <= i < m.len() ==> #[trigger] m[i] == base + i / step,
    ensures
        m.to_set().len() == cnt,
{
    broadcast use vstd::set::group_set_axioms;
    broadcast use seq_to_set_is_finite;

    let iv = Set::<u32>::range(base as u32, (base + cnt) as u32);
    assert forall|e: u32| #[trigger] m.to_set().contains(e) implies iv.contains(e) by {
        assert(m.contains(e));
        let i = choose|i: int| 0 <= i < m.len() && m[i] == e;
        assert(m[i] == base + i / step);
        lemma_div_pos_is_pos(i, step);
        lemma_mul_is_commutative(cnt, step);
        lemma_multiply_divide_lt(i, step, cnt);
    }
    assert forall|e: u32| #[trigger] iv.contains(e) implies m.to_set().contains(e) by {
        let d = e as int - base;
        let i = d * step;
        lemma_mul_inequality(d, cnt - 1, step);
        lemma_mul_is_distributive_add_other_way(step, cnt - 1, 1);
        lemma_mul_is_commutative(cnt, step);
        lemma_div_by_multiple(d, step);
        assert(m[i] == e);
        assert(m.to_set().contains(e));
    }
    assert(m.to_set() =~= iv);
    vstd::set_lib::range_set_properties::<u32>(base as u32, (base + cnt) as u32);
}

/// The distinct values of a sequence that cycles `base + i % step` over a
/// full `cnt * step` grid: exactly `step` of them, `base` through
/// `base + step - 1`.
pub proof fn lemma_mod_pattern_card(m: Seq<u32>, base: int, cnt: int, step: int)
    requires
        m.len() == cnt * step,
        cnt >= 1,
        step >= 1,
        0 <= base,
        base + step <= 0xffffffff,
        forall|i: int| 0 <= i < m.len() ==> #[trigger] m[i] == base + i % step,
    ensures
        m.to_set().len() == step,
{
    broadcast use vstd::set::group_set_axioms;
    broadcast use seq_to_set_is_finite;

    let iv = Set::<u32>::range(base as u32, (base + step) as u32);
    assert forall|e: u32| #[trigger] m.to_set().contains(e) implies iv.contains(e) by {
        assert(m.contains(e));
        let i = choose|i: int| 0 <= i < m.len() && m[i] == e;
        assert(m[i] == base + i % step);
        lemma_mod_bound(i, step);
    }
    assert forall|e: u32| #[trigger] iv.contains(e) implies m.to_set().contains(e) by {
        let d = e as int - base;
        lemma_mul_inequality(1, cnt, step);
        lemma_mul_is_commutative(cnt, step);
        lemma_small_mod(d as nat, step as nat);
        assert(m[d] == e);
        assert(m.to_set().contains(e));
    }
    assert(m.to_set() =~= iv);
    vstd::set_lib::range_set_properties::<u32>(base as u32, (base + step) as u32);
}

} // verus!
