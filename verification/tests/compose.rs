use image::{GenericImageView, Rgba, RgbaImage};
use pass_image_api::coordinates::{
    point_to_tile_coords, radius_to_tile_box, select_zoom_and_box, ConstrainedTileBox,
    MercatorPoint, TileBox, TileCoordinate, COORD_SCALE,
};
use pass_image_api::errors::MapError;
use pass_image_api::raster::{compose_image, crop_centered, new_canvas, stitch};
use pass_image_api::tiles::{tile_box_indices, TileFetch};
use std::io::Cursor;

/// A 256 x 256 PNG tile of one uniform colour.
fn uniform_tile_png(color: [u8; 4]) -> Vec<u8> {
    let img = RgbaImage::from_pixel(256, 256, Rgba(color));
    let mut out = Vec::new();
    image::DynamicImage::ImageRgba8(img)
        .write_to(&mut Cursor::new(&mut out), image::ImageFormat::Png)
        .expect("encoding a tile for the test");
    out
}

/// The Web Mercator projection of the Perth test point.
fn perth() -> MercatorPoint {
    let scale = COORD_SCALE as f64;
    let lat_rad = (-31.9514f64).to_radians();
    let x = (115.8617 + 180.0) / 360.0;
    let y = (1.0 - (lat_rad.tan() + 1.0 / lat_rad.cos()).ln() / std::f64::consts::PI) / 2.0;
    MercatorPoint {
        x: (x * scale) as u64,
        y: (y * scale) as u64,
    }
}

/// One uniformly coloured synthetic tile per index of the box, each tile a
/// different colour.
fn synthetic_tiles(b: &TileBox, zoom: u32) -> Vec<TileFetch> {
    tile_box_indices(b)
        .into_iter()
        .enumerate()
        .map(|(i, (x, y))| TileFetch {
            x,
            y,
            z: zoom,
            bytes: uniform_tile_png([(10 + 20 * i) as u8, (5 + 10 * i) as u8, 200, 255]),
        })
        .collect()
}

#[test]
fn test_stitch_and_crop_centered_yield_planned_size_and_center_color() {
    let p = perth();
    let (zoom, cbox) = select_zoom_and_box(&p, 10_000_000, 1000).expect("a zoom level exists");
    let tiles = synthetic_tiles(&cbox.tile_box, zoom);
    let bytes = compose_image(&tiles, &cbox).expect("composing the image succeeds");

    let img = image::load_from_memory(&bytes).expect("the output is a decodable PNG");
    assert_eq!(img.dimensions(), (cbox.inner_size_px.0, cbox.inner_size_px.1));

    // the centre pixel of the output must show the tile the centre point
    // falls in
    let center_tile = point_to_tile_coords(&p, zoom);
    let cx = (center_tile.x as u64 / COORD_SCALE) as u32;
    let cy = (center_tile.y as u64 / COORD_SCALE) as u32;
    let expected = tiles
        .iter()
        .enumerate()
        .find(|(_, t)| t.x == cx && t.y == cy)
        .map(|(i, _)| [(10 + 20 * i) as u8, (5 + 10 * i) as u8, 200, 255])
        .expect("the centre tile is in the box");
    let got = img.get_pixel(cbox.inner_size_px.0 / 2, cbox.inner_size_px.1 / 2);
    assert_eq!(got.0, expected);
}

#[test]
fn test_stitch_dimensions_follow_distinct_indices() {
    let p = perth();
    let b = radius_to_tile_box(&p, 2_000_000, 12);
    let tiles = synthetic_tiles(&b.tile_box, 12);
    let canvas = stitch(&tiles, &b.tile_box).expect("every tile decodes");
    // columns 3366..=3367 and rows 2431..=2433
    assert_eq!(canvas.width, 2 * 256);
    assert_eq!(canvas.height, 3 * 256);
}

#[test]
fn test_single_bad_tile_fails_the_whole_composition() {
    let p = perth();
    let (zoom, cbox) = select_zoom_and_box(&p, 10_000_000, 1000).expect("a zoom level exists");
    let mut tiles = synthetic_tiles(&cbox.tile_box, zoom);
    let middle = tiles.len() / 2;
    tiles[middle].bytes = vec![1, 2, 3, 4];
    let r = compose_image(&tiles, &cbox);
    assert!(matches!(r, Err(MapError::Decode)));
}

#[test]
fn test_crop_centered_rejects_out_of_canvas_window() {
    let canvas = new_canvas(256, 256);
    let origin = TileCoordinate { x: 0, y: 0, z: 0 };
    let cbox = ConstrainedTileBox {
        center: MercatorPoint { x: 0, y: 0 },
        tile_box: TileBox {
            top_left: origin,
            bottom_right: origin,
        },
        inner_size_px: (500, 500),
    };
    let r = crop_centered(&canvas, &cbox);
    assert!(matches!(r, Err(MapError::Geometry)));
}

#[test]
fn test_crop_centered_window_is_exact() {
    // a canvas of one tile, a centre in its middle, and a window that fits
    let p = MercatorPoint {
        x: COORD_SCALE / 2,
        y: COORD_SCALE / 2,
    };
    let origin = TileCoordinate { x: 0, y: 0, z: 0 };
    let cbox = ConstrainedTileBox {
        center: p,
        tile_box: TileBox {
            top_left: origin,
            bottom_right: TileCoordinate {
                x: (COORD_SCALE - 1) as i64,
                y: (COORD_SCALE - 1) as i64,
                z: 0,
            },
        },
        inner_size_px: (100, 100),
    };
    let canvas = new_canvas(256, 256);
    let out = crop_centered(&canvas, &cbox).expect("the window fits");
    assert_eq!(out.width, 100);
    assert_eq!(out.height, 100);
    assert_eq!(out.data.len(), 4 * 100 * 100);
}
