use pass_image_api::coordinates::{radius_to_tile_box, MercatorPoint, COORD_SCALE};
use pass_image_api::errors::MapError;
use pass_image_api::tiles::{
    collect_tile_results, count_distinct, is_png_content_type, tile_box_indices, tile_url,
    u32_to_dec, FetchFailure, TileFetch, TileSet,
};

#[test]
fn test_url_pattern() {
    assert_eq!(
        TileSet::OSM.url_pattern(),
        "https://tile.openstreetmap.org/{z}/{x}/{y}.png"
    );
    assert_eq!(
        TileSet::Swisstopo.url_pattern(),
        "https://wmts.geo.admin.ch/1.0.0/ch.swisstopo.landeskarte-farbe-10/default/current/3857/{z}/{x}/{y}.png"
    );
}

#[test]
fn test_from_name_falls_back_to_default() {
    assert_eq!(TileSet::from_name("swisstopo"), TileSet::Swisstopo);
    assert_eq!(TileSet::from_name("osm"), TileSet::OSM);
    assert_eq!(TileSet::from_name(""), TileSet::OSM);
    assert_eq!(TileSet::from_name("anything-else"), TileSet::OSM);
}

#[test]
fn test_u32_to_dec() {
    assert_eq!(u32_to_dec(0), "0");
    assert_eq!(u32_to_dec(7), "7");
    assert_eq!(u32_to_dec(256), "256");
    assert_eq!(u32_to_dec(1_234_567_890), "1234567890");
    assert_eq!(u32_to_dec(u32::MAX), "4294967295");
}

#[test]
fn test_tile_url() {
    assert_eq!(
        tile_url(TileSet::OSM, 3366, 2431, 12),
        "https://tile.openstreetmap.org/12/3366/2431.png"
    );
    assert_eq!(
        tile_url(TileSet::Swisstopo, 0, 1, 2),
        "https://wmts.geo.admin.ch/1.0.0/ch.swisstopo.landeskarte-farbe-10/default/current/3857/2/0/1.png"
    );
}

#[test]
fn test_is_png_content_type() {
    assert!(is_png_content_type("image/png"));
    assert!(!is_png_content_type("image/jpeg"));
    assert!(!is_png_content_type("text/html"));
    assert!(!is_png_content_type(""));
}

/// The Web Mercator projection of the Perth test point, precomputed.
fn perth() -> MercatorPoint {
    let scale = COORD_SCALE as f64;
    let lat_rad = (-31.9514f64).to_radians();
    let x = (115.8617 + 180.0) / 360.0;
    let y = (1.0 - (lat_rad.tan() + 1.0 / lat_rad.cos()).ln() / std::f64::consts::PI) / 2.0;
    MercatorPoint {
        x: (x * scale) as u64,
        y: (y * scale) as u64,
    }
}

#[test]
fn test_tile_box_indices_counts_the_grid() {
    let b = radius_to_tile_box(&perth(), 2_000_000, 12);
    let indices = tile_box_indices(&b.tile_box);
    // the box spans columns 3366..=3367 and rows 2431..=2433: exactly 2 x 3
    // fetches, each index once, column by column
    assert_eq!(indices.len(), 6);
    assert_eq!(
        indices,
        vec![
            (3366, 2431),
            (3366, 2432),
            (3366, 2433),
            (3367, 2431),
            (3367, 2432),
            (3367, 2433),
        ]
    );
}

#[test]
fn test_count_distinct() {
    assert_eq!(count_distinct(&vec![]), 0);
    assert_eq!(count_distinct(&vec![5, 5, 5]), 1);
    assert_eq!(count_distinct(&vec![3, 1, 3, 2, 1]), 3);
}

fn fetch(x: u32, y: u32, z: u32, payload: u8) -> TileFetch {
    TileFetch {
        x,
        y,
        z,
        bytes: vec![payload],
    }
}

#[test]
fn test_collect_tile_results_all_ok() {
    let results = vec![
        Ok(fetch(1, 2, 3, 10)),
        Ok(fetch(1, 3, 3, 11)),
        Ok(fetch(2, 2, 3, 12)),
    ];
    let tiles = collect_tile_results(&results).expect("every fetch succeeded");
    assert_eq!(tiles.len(), 3);
    assert_eq!(tiles[0].bytes, vec![10]);
    assert_eq!(tiles[2].x, 2);
}

#[test]
fn test_collect_tile_results_reports_first_failure() {
    let results = vec![
        Ok(fetch(1, 2, 3, 10)),
        Err(FetchFailure {
            message: "status 404".to_string(),
        }),
        Ok(fetch(2, 2, 3, 12)),
        Err(FetchFailure {
            message: "status 500".to_string(),
        }),
    ];
    match collect_tile_results(&results) {
        Err(MapError::TileFetch(m)) => assert_eq!(m, "status 404"),
        other => panic!("expected a tile fetch failure, got {:?}", other),
    }
}
