use zonalrust::wkt::{Geometry, LineString, Point, Polygon};

fn xy(p: &Point) -> (f64, f64) {
    (p.x.parse().unwrap(), p.y.parse().unwrap())
}

fn line(l: &LineString) -> Vec<(f64, f64)> {
    l.points.iter().map(xy).collect()
}

fn rings(p: &Polygon) -> Vec<Vec<(f64, f64)>> {
    p.rings.iter().map(line).collect()
}

fn point_of(g: Result<Geometry, String>) -> Result<(f64, f64), String> {
    g.map(|g| match g {
        Geometry::Point(p) => xy(&p),
        other => panic!("not a point: {:?}", other),
    })
}

fn line_of(g: Result<Geometry, String>) -> Result<Vec<(f64, f64)>, String> {
    g.map(|g| match g {
        Geometry::LineString(l) => line(&l),
        other => panic!("not a line string: {:?}", other),
    })
}

fn polygon_of(g: Result<Geometry, String>) -> Result<Vec<Vec<(f64, f64)>>, String> {
    g.map(|g| match g {
        Geometry::Polygon(p) => rings(&p),
        other => panic!("not a polygon: {:?}", other),
    })
}

#[test]
fn parses_xy_ok() {
    let xy_good: &str = "10.0 1.0";
    let xy_bad_1: &str = "100";
    let xy_bad_2: &str = "a";
    let xy_bad_3: &str = "10.0, 1.0";

    assert_eq!(xy(&Geometry::parse_point(xy_good).unwrap()), (10.0, 1.0));
    assert_eq!(Geometry::parse_point(xy_bad_1), Err("Expected two numbers for coordinate pair, got: 1".to_string()));
    assert_eq!(Geometry::parse_point(xy_bad_2), Err("Invalid number: a".to_string()));
    assert_eq!(Geometry::parse_point(xy_bad_3), Err("Invalid number: 10.0,".to_string()))
}

#[test]
fn parses_point_ok() {
    let point_str_good = "POINT (10.0 1.0)";
    let point_str_bad_1 = "POINT(10.0 1.0)";
    let point_str_bad_2 = "POINT (10.0 1.0";
    let point_str_bad_3 = "POINT (1.0)";

    assert_eq!(point_of(Geometry::parse_point_wkt(point_str_good)), Ok((10.0, 1.0)));
    assert_eq!(Geometry::parse_point_wkt(point_str_bad_1), Err(format!("Bad prefix: {}", point_str_bad_1)));
    assert_eq!(Geometry::parse_point_wkt(point_str_bad_2), Err(format!("Bad suffix: {}", point_str_bad_2)));
    assert_eq!(Geometry::parse_point_wkt(point_str_bad_3), Err("Expected two numbers for coordinate pair, got: 1".to_string()));
}

#[test]
fn parses_linstring_ok() {
    let linsetring_str_good = "LINESTRING (1.0 1.0, 2.0 2.0, 3.0 2.0)";
    let linestring_str_bad_1 = "LINESTRING (1.0 1.0, 2.0 2.0, 3.0 2.0";
    let linestring_str_bad_2 = "LINESTRING (1.0 1.0 2.0 2.0, 3.0 2.0)";

    assert_eq!(line_of(Geometry::parse_linestring_wkt(linsetring_str_good)), Ok(vec![(1.0, 1.0), (2.0, 2.0), (3.0, 2.0)]));
    assert_eq!(Geometry::parse_linestring_wkt(linestring_str_bad_1), Err(format!("Bad suffix: {}", "(1.0 1.0, 2.0 2.0, 3.0 2.0")));
    assert_eq!(Geometry::parse_linestring_wkt(linestring_str_bad_2), Err("Expected two numbers for coordinate pair, got: 4".to_string()));
}

#[test]
fn parses_polygon_ok() {
    let polygon_str_good_1 = "POLYGON ((1.0 1.0, 2.0 2.0, 3.0 2.0, 1.0 1.0))";
    let linestring_vec_good_1 = vec![vec![(1.0, 1.0), (2.0, 2.0), (3.0, 2.0), (1.0, 1.0)]];

    let polygon_str_good_2 = "POLYGON ((3.0 0.0, 3.0 3.0, 0.0 3.0, 0.0 0.0, 3.0 0.0), (2.0 1.0, 2.0 2.0, 1.0 2.0, 1.0 1.0, 2.0 1.0))";
    let linestring_vec_good_2 = vec![vec![(3.0, 0.0), (3.0, 3.0), (0.0, 3.0), (0.0, 0.0), (3.0, 0.0)],
                                     vec![(2.0, 1.0), (2.0, 2.0), (1.0, 2.0), (1.0, 1.0), (2.0, 1.0)]];

    assert_eq!(polygon_of(Geometry::read_polygon_rings_wkt(polygon_str_good_1)), Ok(linestring_vec_good_1));
    assert_eq!(polygon_of(Geometry::read_polygon_rings_wkt(polygon_str_good_2)), Ok(linestring_vec_good_2));
}

#[test]
fn coordinates_keep_their_text() {
    let p = Geometry::parse_point("  -1.5e3\t+.25 ").unwrap();
    assert_eq!(p, Point { x: "-1.5e3".to_string(), y: "+.25".to_string() });
}

#[test]
fn read_wkt_dispatches_on_the_keyword() {
    assert_eq!(point_of(Geometry::read_wkt("  POINT (1 2)\n")), Ok((1.0, 2.0)));
    assert_eq!(line_of(Geometry::read_wkt("LINESTRING(0 0, 1 1)")), Ok(vec![(0.0, 0.0), (1.0, 1.0)]));
    assert_eq!(polygon_of(Geometry::read_wkt("POLYGON ((0 0, 1 0, 0 0))")), Ok(vec![vec![(0.0, 0.0), (1.0, 0.0), (0.0, 0.0)]]));
    assert_eq!(Geometry::read_wkt("  MULTIPOLYGON (((0 0)))  "), Err("Unsupported WKT: MULTIPOLYGON (((0 0)))".to_string()));
    assert_eq!(Geometry::read_wkt(""), Err("Unsupported WKT: ".to_string()));
    assert_eq!(Geometry::read_wkt("POINTS (1 2)"), Err("Bad prefix: POINTS (1 2)".to_string()));
}

#[test]
fn linestring_errors() {
    assert_eq!(Geometry::parse_linestring("1 1, 2 2)"), Err("Bad prefix: 1 1, 2 2)".to_string()));
    assert_eq!(Geometry::parse_linestring("()"), Err("Expected two numbers for coordinate pair, got: 0".to_string()));
    assert_eq!(Geometry::parse_linestring("(1 1,, 2 2)"), Err("Expected two numbers for coordinate pair, got: 0".to_string()));
    assert_eq!(Geometry::parse_linestring("(1 1, x 2, y 3)"), Err("Invalid number: x".to_string()));
    assert_eq!(Geometry::parse_linestring_wkt("LINESTRINGX"), Err("Bad prefix: X".to_string()));
}

#[test]
fn polygon_errors() {
    assert_eq!(Geometry::read_polygon_rings_wkt("POLYGON((0 0))"), Err("Bad prefix: POLYGON((0 0))".to_string()));
    assert_eq!(Geometry::read_polygon_rings_wkt("POLYGON ((0 0)"), Err("Bad suffix: (0 0".to_string()));
    assert_eq!(Geometry::read_polygon_rings_wkt("POLYGON ((0 0) "), Err("Bad suffix: POLYGON ((0 0) ".to_string()));
    assert_eq!(Geometry::read_polygon_rings_wkt("POLYGON ((0 0), 1 1)"), Err("Bad prefix: 1 1".to_string()));
    assert_eq!(Geometry::read_polygon_rings_wkt("POLYGON ((0 0), (1 q))"), Err("Invalid number: q".to_string()));
    assert_eq!(Geometry::read_polygon_rings_wkt("POLYGON ( (0 0))"), Err("Bad prefix:  (0 0)".to_string()));
}

#[test]
fn float_words_are_numbers() {
    for t in ["inf", "-INF", "+Infinity", "NaN", "nan", "1.", ".5", "1e5", "1E-5", "-0", "+7"] {
        let p = Geometry::parse_point(&format!("{} 0", t)).unwrap();
        assert_eq!(p.x, t);
    }
    for t in [".", "1e", "e5", "+", "--1", "1.2.3", "infinit", "0x10", "1_000"] {
        assert_eq!(Geometry::parse_point(&format!("{} 0", t)), Err(format!("Invalid number: {}", t)));
    }
}

#[test]
fn point_round_trip() {
    for (x, y) in [("1", "2"), ("-3.25", "4e10"), ("nan", "inf"), (".5", "7.")] {
        let g = Geometry::read_wkt(&format!("POINT ({} {})", x, y)).unwrap();
        assert_eq!(g, Geometry::Point(Point { x: x.to_string(), y: y.to_string() }));
    }
}

fn pairs_text(points: &[(&str, &str)]) -> String {
    points.iter().map(|(x, y)| format!("{} {}", x, y)).collect::<Vec<_>>().join(", ")
}

fn text_points(points: &[(&str, &str)]) -> Vec<Point> {
    points.iter().map(|(x, y)| Point { x: x.to_string(), y: y.to_string() }).collect()
}

#[test]
fn linestring_round_trip() {
    let pts = [("1", "2"), ("-3.5", "4e2"), ("inf", "+0.")];
    let g = Geometry::read_wkt(&format!("LINESTRING ({})", pairs_text(&pts))).unwrap();
    assert_eq!(g, Geometry::LineString(LineString { points: text_points(&pts) }));
    let one = [("7", "8")];
    let g = Geometry::read_wkt(&format!("LINESTRING ({})", pairs_text(&one))).unwrap();
    assert_eq!(g, Geometry::LineString(LineString { points: text_points(&one) }));
}

#[test]
fn polygon_round_trip() {
    let outer = [("0", "0"), ("4", "0"), ("4", "4"), ("0", "0")];
    let inner = [("1", "1"), ("2", "1"), ("1", "1")];
    let third = [("5.5", "6.5")];
    let text = format!(
        "POLYGON (({}), ({}), ({}))",
        pairs_text(&outer),
        pairs_text(&inner),
        pairs_text(&third)
    );
    let g = Geometry::read_wkt(&text).unwrap();
    assert_eq!(
        g,
        Geometry::Polygon(Polygon {
            rings: vec![
                LineString { points: text_points(&outer) },
                LineString { points: text_points(&inner) },
                LineString { points: text_points(&third) },
            ]
        })
    );
}

#[test]
fn rings_are_read_as_written() {
    // Closing is decided on float values by the caller; the reader keeps the ring.
    let g = Geometry::read_polygon_rings_wkt("POLYGON ((1.0 1.0, 2.0 2.0, 3.0 2.0))");
    assert_eq!(polygon_of(g), Ok(vec![vec![(1.0, 1.0), (2.0, 2.0), (3.0, 2.0)]]));
}

#[test]
fn every_ring_has_a_point() {
    for text in ["POLYGON (())", "POLYGON ((), ())", "LINESTRING ()"] {
        assert!(Geometry::read_wkt(text).is_err());
    }
}
