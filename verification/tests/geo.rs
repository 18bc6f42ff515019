use map_dump::geo_coord::{GeoBounds, GeoCoord, VecGeoCoord, MICRO_LAT_MAX, MICRO_LON_MAX,
    VEC_SCALE, VEC_SCALE_SQ};

/// Converts a coordinate given in degrees to the fixed-point unit-vector
/// representation, the way a caller outside the library would.
fn vec_of_degrees(lat_deg: f64, lon_deg: f64) -> VecGeoCoord {
    let lat = lat_deg.to_radians();
    let lon = lon_deg.to_radians();
    let z = lat.sin();
    let radius = lat.cos();
    let x = radius * lon.cos();
    let y = radius * lon.sin();
    let s = VEC_SCALE as f64;
    VecGeoCoord((x * s) as i64, (y * s) as i64, (z * s) as i64)
}

fn cos_to_angle(cos_scaled: i64) -> f64 {
    let c = cos_scaled as f64 / VEC_SCALE_SQ as f64;
    c.clamp(-1.0, 1.0).acos()
}

#[test]
fn geo_dist() {
    let cases = [
        ((0.0, 10.0), (0.0, 30.0), 20.0f64.to_radians()),
        ((10.0, -20.0), (-15.0, 100.0), 2.118313649),
    ];
    for ((la1, lo1), (la2, lo2), expected) in cases {
        let v1 = vec_of_degrees(la1, lo1);
        let v2 = vec_of_degrees(la2, lo2);
        let actual = cos_to_angle(v1.cos_geo_dist(&v2));
        println!("{}, {}", actual, expected);
        assert!((actual - expected).abs() < 1e-5);
    }
}

#[test]
fn vec_geo_coord_from() {
    for (la, lo) in [(0.0, 0.0), (10.0, -20.0), (80.0, 70.0)] {
        let v = vec_of_degrees(la, lo);
        let unit = v.cos_geo_dist(&v) as f64 / VEC_SCALE_SQ as f64;
        assert!((unit - 1.0).abs() < 1e-8);
    }
}

#[test]
fn clamp_pulls_onto_globe() {
    let c = GeoCoord(95_000_000, -200_000_000).clamp();
    assert_eq!(c, GeoCoord(MICRO_LAT_MAX, -MICRO_LON_MAX));
    let inside = GeoCoord(12_000_000, 34_000_000).clamp();
    assert_eq!(inside, GeoCoord(12_000_000, 34_000_000));
}

#[test]
fn mid_is_midpoint() {
    let a = GeoCoord(0, 0);
    let b = GeoCoord(10_000_000, 20_000_000);
    assert_eq!(a.mid(&b), GeoCoord(5_000_000, 10_000_000));
    // rounding moves towards the smaller value
    let c = GeoCoord(0, 0);
    let d = GeoCoord(1, 3);
    assert_eq!(c.mid(&d), GeoCoord(0, 1));
}

#[test]
fn split_tiles_parent() {
    let b = GeoBounds(GeoCoord(-10_000_000, -20_000_000), GeoCoord(30_000_000, 60_000_000));
    let quads = b.split();
    let m = b.mid();
    assert_eq!(m, GeoCoord(10_000_000, 20_000_000));
    // the quadrant corners are exactly the parent's corners and centre lines
    assert_eq!(quads[0], GeoBounds(GeoCoord(-10_000_000, -20_000_000), m));
    assert_eq!(quads[3], GeoBounds(m, GeoCoord(30_000_000, 60_000_000)));
    // area is preserved
    let area = |r: &GeoBounds| ((r.1 .0 - r.0 .0) as i128) * ((r.1 .1 - r.0 .1) as i128);
    let total: i128 = quads.iter().map(area).sum();
    assert_eq!(total, area(&b));
    // every sample point of the parent lies in some quadrant
    for lat in (-10_000_000i64..=30_000_000).step_by(5_000_000) {
        for lon in (-20_000_000i64..=60_000_000).step_by(10_000_000) {
            let p = GeoCoord(lat, lon);
            assert!(quads.iter().any(|q| q.contains(&p)), "{:?} not covered", p);
        }
    }
}

#[test]
fn globe_covers_sample_points() {
    // 30 degrees
    let step = 30_000_000i64;
    let tiles = GeoBounds::globe(step);
    // 3 latitude rows, 12 longitude columns, both hemispheres
    assert_eq!(tiles.len(), 2 * 3 * 12);
    let samples = [
        GeoCoord(0, 0),
        GeoCoord(MICRO_LAT_MAX, 0),
        GeoCoord(-MICRO_LAT_MAX, 0),
        GeoCoord(0, MICRO_LON_MAX),
        GeoCoord(0, -MICRO_LON_MAX),
        GeoCoord(MICRO_LAT_MAX, MICRO_LON_MAX),
        GeoCoord(-MICRO_LAT_MAX, -MICRO_LON_MAX),
        GeoCoord(-89_999_999, 179_999_999),
        GeoCoord(45_123_456, -123_456_789),
        GeoCoord(-33_000_001, 151_000_001),
    ];
    for p in samples {
        assert!(tiles.iter().any(|t| t.contains(&p)), "{:?} not covered", p);
    }
}

#[test]
fn globe_tiles_overlap_neighbours() {
    let step = 45_000_000i64;
    let tiles = GeoBounds::globe(step);
    // a point on a nominal cell edge lies in more than one tile
    let edge = GeoCoord(45_000_000, -90_000_000);
    let holders = tiles.iter().filter(|t| t.contains(&edge)).count();
    assert!(holders >= 2);
}
