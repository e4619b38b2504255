use osm2rdf::rdf::push_point;

fn point(lat_dmc: i32, lon_dmc: i32) -> Vec<u8> {
    let mut out: Vec<u8> = Vec::new();
    push_point(&mut out, "osmm:loc", lat_dmc, lon_dmc);
    out
}

#[test]
fn point_renders_longitude_first() {
    assert_eq!(
        point(515074000, -1278000),
        b"osmm:loc \"Point(-0.1278 51.5074)\"^^geo:wktLiteral;\n".to_vec()
    );
}

#[test]
fn whole_degrees_render_without_fraction() {
    assert_eq!(point(100000000, 2000000000), b"osmm:loc \"Point(200 10)\"^^geo:wktLiteral;\n".to_vec());
}

#[test]
fn smallest_fraction_keeps_all_digits() {
    assert_eq!(point(-1, 1), b"osmm:loc \"Point(0.0000001 -0.0000001)\"^^geo:wktLiteral;\n".to_vec());
}

#[test]
fn zero_pair_renders_as_zeroes() {
    assert_eq!(point(0, 0), b"osmm:loc \"Point(0 0)\"^^geo:wktLiteral;\n".to_vec());
}
