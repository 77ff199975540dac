use pass_image_api::coordinates::{
    point_to_tile_coords, radius_to_tile_box, select_zoom_and_box, tile_edge_mm, MercatorPoint,
    COORD_SCALE, MAX_ZOOM,
};
use pass_image_api::errors::MapError;

/// The Web Mercator projection of a latitude/longitude pair into the unit
/// square, scaled to the library's fixed-point representation.
fn mercator_point(lat: f64, lon: f64) -> MercatorPoint {
    let scale = COORD_SCALE as f64;
    let lat_rad = lat.to_radians();
    let x = (lon + 180.0) / 360.0;
    let y = (1.0 - (lat_rad.tan() + 1.0 / lat_rad.cos()).ln() / std::f64::consts::PI) / 2.0;
    let clamp = |v: f64| -> u64 {
        let s = v * scale;
        if s < 0.0 {
            0
        } else if s >= scale {
            COORD_SCALE - 1
        } else {
            s as u64
        }
    };
    MercatorPoint {
        x: clamp(x),
        y: clamp(y),
    }
}

fn tile_value(fixed: i64) -> f64 {
    fixed as f64 / COORD_SCALE as f64
}

#[test]
fn test_zero() {
    let p = mercator_point(-31.0, 115.0);
    let t = point_to_tile_coords(&p, 0);
    assert!((tile_value(t.x) - 0.819_444_4).abs() < 1e-6);
    assert!((tile_value(t.y) - 0.590_648_7).abs() < 1e-6);
}

#[test]
fn test_lat_long_to_tile_coords_perth() {
    let p = mercator_point(-31.9514, 115.8617);
    let t = point_to_tile_coords(&p, 12);
    assert!((tile_value(t.x) - 3_366.248_8).abs() < 1e-3);
    assert!((tile_value(t.y) - 2_431.989_7).abs() < 1e-3);
    assert_eq!(t.z, 12);
}

#[test]
fn test_lat_long_to_tile_coords_thun() {
    let p = mercator_point(46.7580, 7.6280);
    let t = point_to_tile_coords(&p, 14);
    assert!((tile_value(t.x) - 8539.159).abs() < 1e-2);
    assert!((tile_value(t.y) - 5778.795).abs() < 1e-2);
    assert_eq!(t.z, 14);
}

#[test]
fn test_lat_long_and_radius_to_tile_box_perth() {
    let p = mercator_point(-31.9514, 115.8617);
    let b = radius_to_tile_box(&p, 2_000_000, 12);
    let tl = b.tile_box.top_left;
    let br = b.tile_box.bottom_right;
    assert!((tile_value(tl.x) - 3_366.044_2).abs() < 1e-2);
    assert!((tile_value(tl.y) - 2_431.785_2).abs() < 1e-2);
    assert!((tile_value(br.x) - 3_366.453_4).abs() < 1e-2);
    assert!((tile_value(br.y) - 2_432.194_3).abs() < 1e-2);
}

#[test]
fn test_lat_long_and_image_size_to_bounding_box_perth() {
    let p = mercator_point(-31.9514, 115.8617);
    let (_zoom, b) = select_zoom_and_box(&p, 10_000_000, 1000).expect("a zoom level exists");
    let tl = b.tile_box.top_left;
    let br = b.tile_box.bottom_right;
    assert!((tile_value(tl.x) - 13_460.902).abs() < 1e-2);
    assert!((tile_value(tl.y) - 9_723.866).abs() < 1e-2);
    assert!((tile_value(br.x) - 13_469.088).abs() < 1e-2);
    assert!((tile_value(br.y) - 9_732.052).abs() < 1e-2);
}

#[test]
fn test_select_zoom_is_minimal() {
    let p = mercator_point(-31.9514, 115.8617);
    let target = 1000;
    let (zoom, b) = select_zoom_and_box(&p, 10_000_000, target).expect("a zoom level exists");
    assert!(b.inner_size_px.0 > target);
    assert!(zoom > 0);
    for below in 0..zoom {
        let smaller = radius_to_tile_box(&p, 10_000_000, below);
        assert!(smaller.inner_size_px.0 <= target);
    }
}

#[test]
fn test_select_zoom_unsatisfiable() {
    let p = mercator_point(-31.9514, 115.8617);
    // a zero radius never covers a single pixel, whatever the zoom
    let r = select_zoom_and_box(&p, 0, 1);
    assert!(matches!(r, Err(MapError::UnsatisfiableResolution)));
}

#[test]
fn test_tile_edge_strictly_decreasing() {
    // 2 * pi * 6371 km, in whole millimetres at zoom zero
    assert_eq!(tile_edge_mm(0), 40_030_173_592);
    for zoom in 0..MAX_ZOOM {
        assert!(tile_edge_mm(zoom + 1) < tile_edge_mm(zoom));
    }
}

#[test]
fn test_inner_size_strictly_increasing() {
    let radius_mm = 10_000_000;
    let mut last = radius_to_tile_box(&mercator_point(0.0, 0.0), radius_mm, 0).inner_size_px.0;
    for zoom in 1..=MAX_ZOOM {
        let b = radius_to_tile_box(&mercator_point(0.0, 0.0), radius_mm, zoom);
        if last >= 1 {
            assert!(b.inner_size_px.0 > last);
        }
        last = b.inner_size_px.0;
    }
}

#[test]
fn test_inner_size_exact_values() {
    let p = mercator_point(-31.9514, 115.8617);
    // floor(256 * radius_in_tiles), radius in tiles = radius / tile edge
    assert_eq!(radius_to_tile_box(&p, 10_000_000, 14).inner_size_px, (1047, 1047));
    assert_eq!(radius_to_tile_box(&p, 2_000_000, 12).inner_size_px, (52, 52));
    let (zoom, b) = select_zoom_and_box(&p, 10_000_000, 1000).expect("a zoom level exists");
    assert_eq!(zoom, 14);
    assert_eq!(b.inner_size_px, (1047, 1047));
}

#[test]
fn test_outer_size_px() {
    let p = mercator_point(-31.9514, 115.8617);
    let b = radius_to_tile_box(&p, 2_000_000, 12);
    // the box spans twice the tile radius on each axis
    assert_eq!(b.tile_box._outer_size_px(), (104, 104));
}

#[test]
fn test_box_is_symmetric_at_the_west_edge() {
    // a centre on the antimeridian: the box keeps its symmetric, negative
    // west corner, and only the whole-tile indices saturate at the edge
    let p = MercatorPoint {
        x: 0,
        y: COORD_SCALE / 2,
    };
    let b = radius_to_tile_box(&p, 1_000_000, 3);
    let tl = b.tile_box.top_left;
    let br = b.tile_box.bottom_right;
    assert!(tl.x < 0);
    assert_eq!(-tl.x, br.x);
    assert_eq!(br.x - tl.x, br.y - tl.y);
    assert_eq!(b.tile_box.outer_top_left().0, 0);
}

#[test]
fn test_outer_top_left_floors() {
    let p = mercator_point(-31.9514, 115.8617);
    let b = radius_to_tile_box(&p, 2_000_000, 12);
    assert_eq!(b.tile_box.outer_top_left(), (3366, 2431));
    assert_eq!(b.tile_box.outer_bottom_right(), (3367, 2433));
}
