use vstd::prelude::*;
use crate::number::{float_text, is_float_text};
use crate::text::{
    decimal, decimal_string, matches_at, split_inclusive, split_inclusive_str, split_on,
    split_on_char, split_whitespace_str, strip_prefix, strip_prefix_str, strip_suffix,
    strip_suffix_str, trim, trim_str, words,
};

verus! {

/// A coordinate pair, each coordinate kept as the text of an `f64`.
#[derive(Debug, PartialEq)]
pub struct Point {
    pub x: String,
    pub y: String,
}

/// The text of a coordinate pair.
pub struct PointView {
    pub x: Seq<char>,
    pub y: Seq<char>,
}

impl View for Point {
    type V = PointView;

    open spec fn view(&self) -> PointView {
        PointView { x: self.x@, y: self.y@ }
    }
}

/// A sequence of points.
#[derive(Debug, PartialEq)]
pub struct LineString {
    pub points: Vec<Point>,
}

impl View for LineString {
    type V = Seq<PointView>;

    open spec fn view(&self) -> Seq<PointView> {
        self.points@.map_values(|p: Point| p@)
    }
}

/// A polygon given by its rings, the outer one first.
#[derive(Debug, PartialEq)]
pub struct Polygon {
    pub rings: Vec<LineString>,
}

impl View for Polygon {
    type V = Seq<Seq<PointView>>;

    open spec fn view(&self) -> Seq<Seq<PointView>> {
        self.rings@.map_values(|r: LineString| r@)
    }
}

/// A collection of polygons.
#[derive(Debug, PartialEq)]
pub struct MultiPolygon {
    pub polygons: Vec<Polygon>,
}

impl View for MultiPolygon {
    type V = Seq<Seq<Seq<PointView>>>;

    open spec fn view(&self) -> Seq<Seq<Seq<PointView>>> {
        self.polygons@.map_values(|p: Polygon| p@)
    }
}

/// A geometry read from well-known text.
#[derive(Debug, PartialEq)]
pub enum Geometry {
    Point(Point),
    LineString(LineString),
    Polygon(Polygon),
    MultiPolygon(MultiPolygon),
}

/// A geometry as plain values.
pub enum GeometryView {
    Point(PointView),
    LineString(Seq<PointView>),
    Polygon(Seq<Seq<PointView>>),
    MultiPolygon(Seq<Seq<Seq<PointView>>>),
}

impl View for Geometry {
    type V = GeometryView;

    open spec fn view(&self) -> GeometryView {
        match self {
            Geometry::Point(p) => GeometryView::Point(p@),
            Geometry::LineString(l) => GeometryView::LineString(l@),
            Geometry::Polygon(p) => GeometryView::Polygon(p@),
            Geometry::MultiPolygon(m) => GeometryView::MultiPolygon(m@),
        }
    }
}

/// The first of `results` that is an error, or all their values when none is,
/// as collecting an iterator of `Result`s into a `Result` of a vector gives.
pub open spec fn collect_all<A>(results: Seq<Result<A, Seq<char>>>) -> Result<Seq<A>, Seq<char>>
    decreases results.len(),
{
    if results.len() == 0 {
        Ok(Seq::<A>::empty())
    } else {
        match results[0] {
            Err(e) => Err(e),
            Ok(v) => match collect_all(results.drop_first()) {
                Err(e) => Err(e),
                Ok(vs) => Ok(seq![v] + vs),
            },
        }
    }
}

/// `r` with `front` put before its values.
pub open spec fn after<A>(front: Seq<A>, r: Result<Seq<A>, Seq<char>>) -> Result<Seq<A>, Seq<char>> {
    match r {
        Ok(vs) => Ok(front + vs),
        Err(e) => Err(e),
    }
}

proof fn lemma_collect_step<A>(results: Seq<Result<A, Seq<char>>>, i: int, front: Seq<A>)
    requires
        0 <= i < results.len(),
        results[i] is Ok,
    ensures
        after(front, collect_all(results.skip(i))) == after(
            front.push(results[i]->Ok_0),
            collect_all(results.skip(i + 1)),
        ),
{
    let t = results.skip(i);
    assert(t.drop_first() =~= results.skip(i + 1));
    assert(t[0] == results[i]);
    match collect_all(results.skip(i + 1)) {
        Ok(vs) => {
            assert(front + (seq![results[i]->Ok_0] + vs) =~= front.push(results[i]->Ok_0) + vs);
        },
        Err(e) => {},
    }
}

proof fn lemma_collect_error<A>(results: Seq<Result<A, Seq<char>>>, i: int, front: Seq<A>)
    requires
        0 <= i < results.len(),
        results[i] is Err,
    ensures
        after(front, collect_all(results.skip(i))) == Err::<Seq<A>, Seq<char>>(results[i]->Err_0),
{
    let t = results.skip(i);
    assert(t[0] == results[i]);
}

proof fn lemma_collect_start<A>(results: Seq<Result<A, Seq<char>>>)
    ensures
        collect_all(results) == after(Seq::<A>::empty(), collect_all(results.skip(0))),
{
    assert(results.skip(0) =~= results);
    match collect_all(results) {
        Ok(vs) => {
            assert(Seq::<A>::empty() + vs =~= vs);
        },
        Err(e) => {},
    }
}

/// The first word of `tokens` that is not the text of an `f64`.
pub open spec fn first_non_float(tokens: Seq<Seq<char>>) -> Option<Seq<char>>
    decreases tokens.len(),
{
    if tokens.len() == 0 {
        None
    } else if !is_float_text(tokens[0]) {
        Some(tokens[0])
    } else {
        first_non_float(tokens.drop_first())
    }
}

/// A coordinate pair read from `pair`: two numbers separated by white space.
pub open spec fn point_from(pair: Seq<char>) -> Result<PointView, Seq<char>> {
    let tokens = words(pair);
    match first_non_float(tokens) {
        Some(bad) => Err("Invalid number: "@ + bad),
        None => if tokens.len() != 2 {
            Err("Expected two numbers for coordinate pair, got: "@ + decimal(tokens.len()))
        } else {
            Ok(PointView { x: tokens[0], y: tokens[1] })
        },
    }
}

/// The points of a parenthesised, comma-separated list of coordinate pairs.
pub open spec fn linestring_from(pairs: Seq<char>) -> Result<Seq<PointView>, Seq<char>> {
    match strip_prefix(pairs, "("@) {
        None => Err("Bad prefix: "@ + pairs),
        Some(open) => match strip_suffix(open, ")"@) {
            None => Err("Bad suffix: "@ + pairs),
            Some(inner) => collect_all(
                split_on(inner, ',').map_values(|piece: Seq<char>| point_from(trim(piece))),
            ),
        },
    }
}

/// The text of one ring within a polygon: the piece with a trailing comma
/// dropped, when the piece ends with one after trimming.
pub open spec fn ring_text(piece: Seq<char>) -> Seq<char> {
    match strip_suffix(trim(piece), ","@) {
        Some(r) => r,
        None => piece,
    }
}

/// `POINT (x y)`.
pub open spec fn point_wkt(wkt: Seq<char>) -> Result<GeometryView, Seq<char>> {
    match strip_prefix(wkt, "POINT ("@) {
        None => Err("Bad prefix: "@ + wkt),
        Some(open) => match strip_suffix(open, ")"@) {
            None => Err("Bad suffix: "@ + wkt),
            Some(inner) => match point_from(inner) {
                Ok(p) => Ok(GeometryView::Point(p)),
                Err(e) => Err(e),
            },
        },
    }
}

/// `LINESTRING (x y, x y, ...)`.
pub open spec fn linestring_wkt(wkt: Seq<char>) -> Result<GeometryView, Seq<char>> {
    match strip_prefix(wkt, "LINESTRING"@) {
        None => Err("Bad prefix: "@ + wkt),
        Some(rest) => match linestring_from(trim(rest)) {
            Ok(l) => Ok(GeometryView::LineString(l)),
            Err(e) => Err(e),
        },
    }
}

/// The rings of `POLYGON ((x y, ...), (x y, ...))`, read ring by ring as they
/// are written. This reading does not decide whether the text is a valid
/// polygon: whether each ring ends where it starts is a comparison of float
/// values, made by the caller after converting the coordinates.
pub open spec fn polygon_rings_wkt(wkt: Seq<char>) -> Result<GeometryView, Seq<char>> {
    match strip_prefix(wkt, "POLYGON ("@) {
        None => Err("Bad prefix: "@ + wkt),
        Some(open) => match strip_suffix(open, ")"@) {
            None => Err("Bad suffix: "@ + wkt),
            Some(inner) => match collect_all(
                split_inclusive(inner, "), "@).map_values(
                    |piece: Seq<char>| linestring_from(ring_text(piece)),
                ),
            ) {
                Ok(rings) => Ok(GeometryView::Polygon(rings)),
                Err(e) => Err(e),
            },
        },
    }
}

/// The geometry that well-known text writes, after trimming white space,
/// with polygon rings read as written (see `polygon_rings_wkt`).
pub open spec fn wkt_read(text: Seq<char>) -> Result<GeometryView, Seq<char>> {
    let wkt = trim(text);
    if "POINT"@.is_prefix_of(wkt) {
        point_wkt(wkt)
    } else if "LINESTRING"@.is_prefix_of(wkt) {
        linestring_wkt(wkt)
    } else if "POLYGON"@.is_prefix_of(wkt) {
        polygon_rings_wkt(wkt)
    } else {
        Err("Unsupported WKT: "@ + wkt)
    }
}

/// Views a parse result as plain values.
pub open spec fn result_view<T: View>(r: Result<T, String>) -> Result<T::V, Seq<char>> {
    match r {
        Ok(v) => Ok(v@),
        Err(e) => Err(e@),
    }
}

fn concat(a: &str, b: &str) -> (res: String)
    ensures
        res@ == a@ + b@,
{
    let mut s = String::from_str(a);
    s.append(b);
    s
}

impl Geometry {
    /// Reads a coordinate pair: two numbers separated by white space.
    pub fn parse_point(pair: &str) -> (res: Result<Point, String>)
        ensures
            result_view(res) == point_from(pair@),
    {
        let tokens = split_whitespace_str(pair);
        let ghost toks = tokens.deep_view();
        let n = tokens.len();
        let mut i: usize = 0;
        proof {
            assert(toks.skip(0) =~= toks);
        }
        while i < n
            invariant
                n == tokens.len(),
                toks == tokens.deep_view(),
                toks == words(pair@),
                i <= n,
                first_non_float(toks) == first_non_float(toks.skip(i as int)),
            decreases n - i,
        {
            assert(toks.skip(i as int)[0] == tokens[i as int]@);
            assert(toks.skip(i as int).drop_first() =~= toks.skip(i + 1));
            if !float_text(tokens[i]) {
                return Err(concat("Invalid number: ", tokens[i]));
            }
            i = i + 1;
        }
        assert(toks.skip(n as int).len() == 0);
        if n != 2 {
            let mut e = String::from_str("Expected two numbers for coordinate pair, got: ");
            let count = decimal_string(n);
            e.append(count.as_str());
            return Err(e);
        }
        Ok(Point { x: String::from_str(tokens[0]), y: String::from_str(tokens[1]) })
    }

    /// Reads `(x y, x y, ...)`.
    pub fn parse_linestring(pairs: &str) -> (res: Result<LineString, String>)
        ensures
            result_view(res) == linestring_from(pairs@),
    {
        let open = match strip_prefix_str(pairs, "(") {
            Some(o) => o,
            None => {
                return Err(concat("Bad prefix: ", pairs));
            },
        };
        let inner = match strip_suffix_str(open, ")") {
            Some(i) => i,
            None => {
                return Err(concat("Bad suffix: ", pairs));
            },
        };
        let pieces = split_on_char(inner, ',');
        let ghost results = split_on(inner@, ',').map_values(|piece: Seq<char>| point_from(trim(piece)));
        let n = pieces.len();
        let mut points: Vec<Point> = Vec::new();
        proof {
            lemma_collect_start(results);
        }
        while points.len() < n
            invariant
                n == pieces.len(),
                strip_prefix(pairs@, "("@) == Some(open@),
                strip_suffix(open@, ")"@) == Some(inner@),
                pieces.deep_view() == split_on(inner@, ','),
                results == split_on(inner@, ',').map_values(|piece: Seq<char>| point_from(trim(piece))),
                points.len() <= n,
                collect_all(results) == after(
                    points@.map_values(|p: Point| p@),
                    collect_all(results.skip(points.len() as int)),
                ),
            decreases n - points.len(),
        {
            let i = points.len();
            let piece = trim_str(pieces[i]);
            assert(results[i as int] == point_from(trim(pieces[i as int]@)));
            match Self::parse_point(piece) {
                Ok(p) => {
                    proof {
                        lemma_collect_step(results, i as int, points@.map_values(|q: Point| q@));
                    }
                    let ghost before = points@;
                    points.push(p);
                    assert(points@.map_values(|q: Point| q@) =~= before.map_values(|q: Point| q@).push(p@));
                },
                Err(e) => {
                    proof {
                        lemma_collect_error(results, i as int, points@.map_values(|q: Point| q@));
                    }
                    return Err(e);
                },
            }
        }
        assert(results.skip(n as int).len() == 0);
        assert(points@.map_values(|p: Point| p@) + Seq::<PointView>::empty() =~= points@.map_values(|p: Point| p@));
        Ok(LineString { points })
    }

    /// Reads `POINT (x y)`.
    pub fn parse_point_wkt(wkt: &str) -> (res: Result<Geometry, String>)
        ensures
            result_view(res) == point_wkt(wkt@),
    {
        let open = match strip_prefix_str(wkt, "POINT (") {
            Some(o) => o,
            None => {
                return Err(concat("Bad prefix: ", wkt));
            },
        };
        let inner = match strip_suffix_str(open, ")") {
            Some(i) => i,
            None => {
                return Err(concat("Bad suffix: ", wkt));
            },
        };
        match Self::parse_point(inner) {
            Ok(p) => Ok(Geometry::Point(p)),
            Err(e) => Err(e),
        }
    }

    /// Reads `LINESTRING (x y, x y, ...)`.
    pub fn parse_linestring_wkt(wkt: &str) -> (res: Result<Geometry, String>)
        ensures
            result_view(res) == linestring_wkt(wkt@),
    {
        let rest = match strip_prefix_str(wkt, "LINESTRING") {
            Some(r) => r,
            None => {
                return Err(concat("Bad prefix: ", wkt));
            },
        };
        match Self::parse_linestring(trim_str(rest)) {
            Ok(l) => Ok(Geometry::LineString(l)),
            Err(e) => Err(e),
        }
    }

    /// Reads the rings of `POLYGON ((x y, ...), (x y, ...))` as they are
    /// written, without deciding whether they close: that is a comparison of
    /// float values, which the caller makes on the converted coordinates
    /// before it accepts the polygon.
    pub fn read_polygon_rings_wkt(wkt: &str) -> (res: Result<Geometry, String>)
        ensures
            result_view(res) == polygon_rings_wkt(wkt@),
    {
        let open = match strip_prefix_str(wkt, "POLYGON (") {
            Some(o) => o,
            None => {
                return Err(concat("Bad prefix: ", wkt));
            },
        };
        let inner = match strip_suffix_str(open, ")") {
            Some(i) => i,
            None => {
                return Err(concat("Bad suffix: ", wkt));
            },
        };
        proof {
            reveal_strlit("), ");
        }
        let pieces = split_inclusive_str(inner, "), ");
        let ghost results = split_inclusive(inner@, "), "@).map_values(
            |piece: Seq<char>| linestring_from(ring_text(piece)),
        );
        let n = pieces.len();
        let mut rings: Vec<LineString> = Vec::new();
        proof {
            lemma_collect_start(results);
        }
        while rings.len() < n
            invariant
                n == pieces.len(),
                strip_prefix(wkt@, "POLYGON ("@) == Some(open@),
                strip_suffix(open@, ")"@) == Some(inner@),
                pieces.deep_view() == split_inclusive(inner@, "), "@),
                results == split_inclusive(inner@, "), "@).map_values(
                    |piece: Seq<char>| linestring_from(ring_text(piece)),
                ),
                rings.len() <= n,
                collect_all(results) == after(
                    rings@.map_values(|r: LineString| r@),
                    collect_all(results.skip(rings.len() as int)),
                ),
            decreases n - rings.len(),
        {
            let i = rings.len();
            let piece = pieces[i];
            let text = match strip_suffix_str(trim_str(piece), ",") {
                Some(t) => t,
                None => piece,
            };
            assert(text@ == ring_text(piece@));
            assert(results[i as int] == linestring_from(ring_text(pieces[i as int]@)));
            match Self::parse_linestring(text) {
                Ok(l) => {
                    proof {
                        lemma_collect_step(results, i as int, rings@.map_values(|r: LineString| r@));
                    }
                    let ghost before = rings@;
                    rings.push(l);
                    assert(rings@.map_values(|r: LineString| r@) =~= before.map_values(
                        |r: LineString| r@,
                    ).push(l@));
                },
                Err(e) => {
                    proof {
                        lemma_collect_error(results, i as int, rings@.map_values(|r: LineString| r@));
                    }
                    return Err(e);
                },
            }
        }
        assert(results.skip(n as int).len() == 0);
        assert(rings@.map_values(|r: LineString| r@) + Seq::<Seq<PointView>>::empty()
            =~= rings@.map_values(|r: LineString| r@));
        Ok(Geometry::Polygon(Polygon { rings }))
    }

    /// Reads a point, line string or polygon from well-known text, after
    /// trimming white space. A polygon's rings are read as written and not
    /// checked for closing; see `read_polygon_rings_wkt`.
    pub fn read_wkt(text: &str) -> (res: Result<Geometry, String>)
        ensures
            result_view(res) == wkt_read(text@),
    {
        let wkt = trim_str(text);
        if matches_at(wkt, 0, "POINT") {
            Self::parse_point_wkt(wkt)
        } else if matches_at(wkt, 0, "LINESTRING") {
            Self::parse_linestring_wkt(wkt)
        } else if matches_at(wkt, 0, "POLYGON") {
            Self::read_polygon_rings_wkt(wkt)
        } else {
            Err(concat("Unsupported WKT: ", wkt))
        }
    }
}

} // verus!
