use vstd::prelude::*;
use crate::number::{
    equals_ignoring_case, is_digit, is_exponent, is_float_text, is_mantissa, is_number,
    unsigned_part,
};
use crate::text_laws::{all_white_space, law_trim_ignores_surrounding_white_space};
use crate::text::{
    decimal,
    glue_front, is_white_space, lemma_split_on_nonempty, split_inclusive, split_on, strip_prefix,
    strip_suffix, trim, trim_end, trim_start, words,
};
use crate::wkt::{
    collect_all, first_non_float, wkt_read, linestring_from, linestring_wkt, point_from,
    polygon_rings_wkt, ring_text, GeometryView, PointView,
};

verus! {

/// A character that can occur in the text of an `f64`.
pub open spec fn is_float_char(c: char) -> bool {
    ||| c == '+'
    ||| c == '-'
    ||| c == '.'
    ||| ('0' <= c && c <= '9')
    ||| ('A' <= c && c <= 'Z')
    ||| ('a' <= c && c <= 'z')
}

proof fn lemma_white_space_not_float_char(c: char)
    requires
        is_white_space(c),
    ensures
        !is_float_char(c),
{
}

proof fn lemma_word_chars(body: Seq<char>, word: Seq<char>)
    requires
        equals_ignoring_case(body, word),
        forall|i: int| 0 <= i < word.len() ==> 'a' <= #[trigger] word[i] && word[i] <= 'z',
    ensures
        forall|i: int| 0 <= i < body.len() ==> is_float_char(#[trigger] body[i]),
{
    assert forall|i: int| 0 <= i < body.len() implies is_float_char(#[trigger] body[i]) by {
        assert('a' <= word[i] && word[i] <= 'z');
        if body[i] != word[i] {
            assert(body[i] as int + 32 == word[i] as int);
        }
    }
}

proof fn lemma_mantissa_chars(m: Seq<char>)
    requires
        is_mantissa(m),
    ensures
        m.len() > 0,
        forall|i: int| 0 <= i < m.len() ==> is_float_char(#[trigger] m[i]),
{
    assert forall|i: int| 0 <= i < m.len() implies is_float_char(#[trigger] m[i]) by {
        assert(is_digit(m[i]) || m[i] == '.');
    }
}

proof fn lemma_number_chars(b: Seq<char>)
    requires
        is_number(b),
    ensures
        b.len() > 0,
        forall|i: int| 0 <= i < b.len() ==> is_float_char(#[trigger] b[i]),
{
    if is_mantissa(b) {
        lemma_mantissa_chars(b);
    } else {
        let k = choose|k: int| 0 <= k < b.len() && is_mantissa(b.take(k)) && #[trigger] is_exponent(b.skip(k));
        lemma_mantissa_chars(b.take(k));
        let e = b.skip(k);
        let digits = if e[1] == '+' || e[1] == '-' { e.skip(2) } else { e.skip(1) };
        assert forall|i: int| 0 <= i < b.len() implies is_float_char(#[trigger] b[i]) by {
            if i < k {
                assert(b.take(k)[i] == b[i]);
            } else if i == k {
                assert(e[0] == b[i]);
            } else if i == k + 1 {
                assert(e[1] == b[i]);
                if !(e[1] == '+' || e[1] == '-') {
                    assert(digits[0] == e[1]);
                    assert(is_digit(digits[0]));
                }
            } else {
                let off: int = if e[1] == '+' || e[1] == '-' { 2 } else { 1 };
                assert(digits[i - k - off] == b[i]);
                assert(is_digit(digits[i - k - off]));
            }
        }
    }
}

/// The text of an `f64` is never empty and holds only signs, points, digits
/// and letters, so no white space, no comma and no parenthesis.
pub proof fn lemma_float_text_chars(s: Seq<char>)
    requires
        is_float_text(s),
    ensures
        s.len() > 0,
        forall|i: int| 0 <= i < s.len() ==> is_float_char(#[trigger] s[i]),
{
    reveal_strlit("inf");
    reveal_strlit("infinity");
    reveal_strlit("nan");
    let body = unsigned_part(s);
    if is_number(body) {
        lemma_number_chars(body);
    } else if equals_ignoring_case(body, "inf"@) {
        lemma_word_chars(body, "inf"@);
    } else if equals_ignoring_case(body, "infinity"@) {
        lemma_word_chars(body, "infinity"@);
    } else {
        lemma_word_chars(body, "nan"@);
    }
    assert forall|i: int| 0 <= i < s.len() implies is_float_char(#[trigger] s[i]) by {
        if s.len() > 0 && (s[0] == '+' || s[0] == '-') {
            if i > 0 {
                assert(body[i - 1] == s[i]);
            }
        } else {
            assert(body[i] == s[i]);
        }
    }
}

proof fn lemma_words_of_word(w: Seq<char>, rest: Seq<char>)
    requires
        w.len() > 0,
        forall|i: int| 0 <= i < w.len() ==> !is_white_space(#[trigger] w[i]),
        rest.len() == 0 || is_white_space(rest[0]),
    ensures
        words(w + rest) == seq![w] + words(rest),
    decreases w.len(),
{
    let s = w + rest;
    assert(s[0] == w[0]);
    assert(s.drop_first() =~= w.drop_first() + rest);
    if w.len() == 1 {
        assert(w.drop_first() + rest =~= rest);
        assert(seq![seq![s[0]]] + words(rest) =~= seq![w] + words(rest)) by {
            assert(seq![s[0]] =~= w);
        }
    } else {
        let w1 = w.drop_first();
        assert forall|i: int| 0 <= i < w1.len() implies !is_white_space(#[trigger] w1[i]) by {
            assert(w1[i] == w[i + 1]);
        }
        lemma_words_of_word(w1, rest);
        assert(s[1] == w[1]);
        let r = words(w1 + rest);
        assert(r.update(0, seq![s[0]] + r[0]) =~= seq![w] + words(rest)) by {
            assert(seq![s[0]] + w1 =~= w);
        }
    }
}

proof fn lemma_no_white_space(s: Seq<char>)
    requires
        is_float_text(s),
    ensures
        s.len() > 0,
        forall|i: int| 0 <= i < s.len() ==> !is_white_space(#[trigger] s[i]),
{
    lemma_float_text_chars(s);
    assert forall|i: int| 0 <= i < s.len() implies !is_white_space(#[trigger] s[i]) by {
        if is_white_space(s[i]) {
            lemma_white_space_not_float_char(s[i]);
        }
    }
}

/// Two numbers separated by one space read as the coordinate pair they write.
pub proof fn law_pair_round_trip(x: Seq<char>, y: Seq<char>)
    requires
        is_float_text(x),
        is_float_text(y),
    ensures
        point_from(x + " "@ + y) == Ok::<PointView, Seq<char>>(PointView { x, y }),
{
    reveal_strlit(" ");
    lemma_no_white_space(x);
    lemma_no_white_space(y);
    let sy = " "@ + y;
    assert(is_white_space(sy[0]));
    lemma_words_of_word(x, sy);
    assert(x + " "@ + y =~= x + sy);
    assert(words(sy) == words(sy.drop_first()));
    assert(sy.drop_first() =~= y);
    lemma_words_of_word(y, Seq::<char>::empty());
    assert(y + Seq::<char>::empty() =~= y);
    assert(words(Seq::<char>::empty()) =~= Seq::<Seq<char>>::empty());
    let t = words(x + " "@ + y);
    assert(t =~= seq![x, y]);
    assert(t.drop_first() =~= seq![y]);
    assert(t.drop_first().drop_first() =~= Seq::<Seq<char>>::empty());
    assert(first_non_float(t.drop_first().drop_first()) is None);
    assert(first_non_float(t.drop_first()) is None);
    assert(first_non_float(t) is None);
}

/// A point written as well-known text, `POINT (x y)`, reads back as that point.
pub proof fn law_point_round_trip(x: Seq<char>, y: Seq<char>)
    requires
        is_float_text(x),
        is_float_text(y),
    ensures
        wkt_read("POINT ("@ + x + " "@ + y + ")"@) == Ok::<GeometryView, Seq<char>>(
            GeometryView::Point(PointView { x, y }),
        ),
{
    reveal_strlit("POINT (");
    reveal_strlit("POINT");
    reveal_strlit(")");
    law_pair_round_trip(x, y);
    let pair = x + " "@ + y;
    let w = "POINT ("@ + pair + ")"@;
    assert(w =~= "POINT ("@ + x + " "@ + y + ")"@);
    assert(w[0] == 'P');
    assert(trim_start(w) == w);
    assert(w.last() == ')');
    assert(trim_end(w) == w);
    assert(trim(w) == w);
    assert("POINT"@.is_prefix_of(w)) by {
        assert(w.subrange(0, 5) =~= "POINT"@);
    }
    assert(strip_prefix(w, "POINT ("@) == Some(pair + ")"@)) by {
        assert(w.subrange(0, 7) =~= "POINT ("@);
        assert(w.skip(7) =~= pair + ")"@);
    }
    let open = pair + ")"@;
    assert(strip_suffix(open, ")"@) == Some(pair)) by {
        assert(open.subrange(open.len() - 1, open.len() as int) =~= ")"@);
        assert(open.take(open.len() - 1) =~= pair);
    }
}

proof fn lemma_collect_len<A>(results: Seq<Result<A, Seq<char>>>)
    ensures
        collect_all(results) matches Ok(vs) ==> vs.len() == results.len(),
    decreases results.len(),
{
    if results.len() > 0 {
        lemma_collect_len(results.drop_first());
    }
}

/// Every line string that is read has at least one point, so its first and
/// last points exist.
pub proof fn law_linestring_nonempty(pairs: Seq<char>)
    ensures
        linestring_from(pairs) matches Ok(points) ==> points.len() >= 1,
{
    reveal_strlit("(");
    reveal_strlit(")");
    match strip_prefix(pairs, "("@) {
        None => {},
        Some(open) => match strip_suffix(open, ")"@) {
            None => {},
            Some(inner) => {
                let pieces = split_on(inner, ',');
                lemma_split_on_nonempty(inner, ',');
                lemma_collect_len(pieces.map_values(|piece: Seq<char>| point_from(trim(piece))));
            },
        },
    }
}

/// A coordinate pair written as text: `x y`.
pub open spec fn pair_text(p: PointView) -> Seq<char> {
    p.x + " "@ + p.y
}

/// Coordinate pairs written as text, separated by `, `.
pub open spec fn pairs_text(points: Seq<PointView>) -> Seq<char>
    decreases points.len(),
{
    if points.len() == 0 {
        Seq::<char>::empty()
    } else if points.len() == 1 {
        pair_text(points[0])
    } else {
        pair_text(points[0]) + ", "@ + pairs_text(points.drop_first())
    }
}

/// Both coordinates are the text of an `f64`.
pub open spec fn is_float_pair(p: PointView) -> bool {
    is_float_text(p.x) && is_float_text(p.y)
}

proof fn lemma_split_on_sep(a: Seq<char>, b: Seq<char>)
    requires
        forall|i: int| 0 <= i < a.len() ==> #[trigger] a[i] != ',',
    ensures
        split_on(a + seq![','] + b, ',') == seq![a] + split_on(b, ','),
    decreases a.len(),
{
    let s = a + seq![','] + b;
    if a.len() == 0 {
        assert(s.drop_first() =~= b);
        assert(a =~= Seq::<char>::empty());
    } else {
        let a1 = a.drop_first();
        assert forall|i: int| 0 <= i < a1.len() implies #[trigger] a1[i] != ',' by {
            assert(a1[i] == a[i + 1]);
        }
        lemma_split_on_sep(a1, b);
        assert(s[0] == a[0]);
        assert(s.drop_first() =~= a1 + seq![','] + b);
        let r = split_on(s.drop_first(), ',');
        assert(r.update(0, seq![s[0]] + r[0]) =~= seq![a] + split_on(b, ',')) by {
            assert(seq![s[0]] + a1 =~= a);
        }
    }
}

proof fn lemma_split_on_none(a: Seq<char>)
    requires
        forall|i: int| 0 <= i < a.len() ==> #[trigger] a[i] != ',',
    ensures
        split_on(a, ',') == seq![a],
    decreases a.len(),
{
    if a.len() == 0 {
        assert(a =~= Seq::<char>::empty());
    } else {
        let a1 = a.drop_first();
        assert forall|i: int| 0 <= i < a1.len() implies #[trigger] a1[i] != ',' by {
            assert(a1[i] == a[i + 1]);
        }
        lemma_split_on_none(a1);
        assert(seq![a1].update(0, seq![a[0]] + a1) =~= seq![a]) by {
            assert(seq![a[0]] + a1 =~= a);
        }
    }
}

proof fn lemma_pair_text_chars(p: PointView)
    requires
        is_float_pair(p),
    ensures
        pair_text(p).len() > 0,
        !is_white_space(pair_text(p)[0]),
        !is_white_space(pair_text(p).last()),
        forall|i: int| 0 <= i < pair_text(p).len() ==> #[trigger] pair_text(p)[i] != ',',
{
    reveal_strlit(" ");
    lemma_float_text_chars(p.x);
    lemma_float_text_chars(p.y);
    let t = pair_text(p);
    assert(t[0] == p.x[0]);
    assert(t.last() == p.y.last());
    if is_white_space(t[0]) {
        lemma_white_space_not_float_char(t[0]);
    }
    if is_white_space(t.last()) {
        lemma_white_space_not_float_char(t.last());
    }
    assert forall|i: int| 0 <= i < t.len() implies #[trigger] t[i] != ',' by {
        if i < p.x.len() {
            assert(t[i] == p.x[i]);
            assert(is_float_char(p.x[i]));
        } else if i > p.x.len() {
            assert(t[i] == p.y[i - p.x.len() - 1]);
            assert(is_float_char(p.y[i - p.x.len() - 1]));
        }
    }
}

/// The pieces that `pairs_text(points)` is split into at its commas: the first
/// pair as written, and each later pair after one space.
pub open spec fn pair_pieces(points: Seq<PointView>) -> Seq<Seq<char>> {
    Seq::new(points.len(), |i: int| if i == 0 { pair_text(points[0]) } else { " "@ + pair_text(points[i]) })
}

proof fn lemma_split_pairs_text(points: Seq<PointView>)
    requires
        points.len() >= 1,
        forall|i: int| 0 <= i < points.len() ==> is_float_pair(#[trigger] points[i]),
    ensures
        split_on(pairs_text(points), ',') == pair_pieces(points),
    decreases points.len(),
{
    reveal_strlit(", ");
    reveal_strlit(" ");
    lemma_pair_text_chars(points[0]);
    if points.len() == 1 {
        lemma_split_on_none(pair_text(points[0]));
        assert(pair_pieces(points) =~= seq![pair_text(points[0])]);
    } else {
        let rest = points.drop_first();
        assert forall|i: int| 0 <= i < rest.len() implies is_float_pair(#[trigger] rest[i]) by {
            assert(rest[i] == points[i + 1]);
        }
        lemma_split_pairs_text(rest);
        let tail = " "@ + pairs_text(rest);
        assert(pairs_text(points) =~= pair_text(points[0]) + seq![','] + tail);
        lemma_split_on_sep(pair_text(points[0]), tail);
        let r = split_on(pairs_text(rest), ',');
        assert(tail[0] == ' ');
        assert(tail.drop_first() =~= pairs_text(rest));
        assert(split_on(tail, ',') == r.update(0, seq![' '] + r[0]));
        assert(seq![' '] =~= " "@);
        assert(seq![pair_text(points[0])] + r.update(0, " "@ + r[0]) =~= pair_pieces(points));
    }
}

proof fn lemma_trim_pair_piece(p: PointView, spaced: bool)
    requires
        is_float_pair(p),
    ensures
        trim(if spaced { " "@ + pair_text(p) } else { pair_text(p) }) == pair_text(p),
{
    reveal_strlit(" ");
    lemma_pair_text_chars(p);
    let t = pair_text(p);
    if spaced {
        let u = " "@ + t;
        assert(is_white_space(u[0]));
        assert(u.drop_first() =~= t);
        assert(trim_start(u) == trim_start(t));
    }
    assert(trim_start(t) == t);
    assert(trim_end(t) == t);
}

proof fn lemma_collect_all_ok<A>(results: Seq<Result<A, Seq<char>>>, values: Seq<A>)
    requires
        results.len() == values.len(),
        forall|i: int| 0 <= i < results.len() ==> #[trigger] results[i] == Ok::<A, Seq<char>>(values[i]),
    ensures
        collect_all(results) == Ok::<Seq<A>, Seq<char>>(values),
    decreases results.len(),
{
    if results.len() == 0 {
        assert(values =~= Seq::<A>::empty());
    } else {
        let r1 = results.drop_first();
        let v1 = values.drop_first();
        assert forall|i: int| 0 <= i < r1.len() implies #[trigger] r1[i] == Ok::<A, Seq<char>>(v1[i]) by {
            assert(r1[i] == results[i + 1]);
        }
        lemma_collect_all_ok(r1, v1);
        assert(results[0] == Ok::<A, Seq<char>>(values[0]));
        assert(seq![values[0]] + v1 =~= values);
    }
}

/// Coordinate pairs written as a parenthesised, comma-separated list read back
/// as the same points, in order.
pub proof fn law_linestring_round_trip(points: Seq<PointView>)
    requires
        points.len() >= 1,
        forall|i: int| 0 <= i < points.len() ==> is_float_pair(#[trigger] points[i]),
    ensures
        linestring_from("("@ + pairs_text(points) + ")"@) == Ok::<Seq<PointView>, Seq<char>>(points),
{
    reveal_strlit("(");
    reveal_strlit(")");
    let body = pairs_text(points);
    let w = "("@ + body + ")"@;
    assert(strip_prefix(w, "("@) == Some(body + ")"@)) by {
        assert(w.subrange(0, 1) =~= "("@);
        assert(w.skip(1) =~= body + ")"@);
    }
    let open = body + ")"@;
    assert(strip_suffix(open, ")"@) == Some(body)) by {
        assert(open.subrange(open.len() - 1, open.len() as int) =~= ")"@);
        assert(open.take(open.len() - 1) =~= body);
    }
    lemma_split_pairs_text(points);
    let pieces = pair_pieces(points);
    let results = pieces.map_values(|piece: Seq<char>| point_from(trim(piece)));
    assert forall|i: int| 0 <= i < results.len() implies #[trigger] results[i] == Ok::<PointView, Seq<char>>(points[i]) by {
        lemma_trim_pair_piece(points[i], i != 0);
        law_pair_round_trip(points[i].x, points[i].y);
        assert(trim(pieces[i]) == pair_text(points[i]));
    }
    lemma_collect_all_ok(results, points);
}

/// A line string written as well-known text, `LINESTRING (x y, x y, ...)`,
/// reads back as those points.
pub proof fn law_linestring_wkt_round_trip(points: Seq<PointView>)
    requires
        points.len() >= 1,
        forall|i: int| 0 <= i < points.len() ==> is_float_pair(#[trigger] points[i]),
    ensures
        wkt_read("LINESTRING ("@ + pairs_text(points) + ")"@) == Ok::<GeometryView, Seq<char>>(
            GeometryView::LineString(points),
        ),
{
    reveal_strlit("LINESTRING (");
    reveal_strlit("LINESTRING");
    reveal_strlit("POINT");
    reveal_strlit(" ");
    reveal_strlit("(");
    reveal_strlit(")");
    law_linestring_round_trip(points);
    let list = "("@ + pairs_text(points) + ")"@;
    let w = "LINESTRING ("@ + pairs_text(points) + ")"@;
    assert(w[0] == 'L');
    assert(trim_start(w) == w);
    assert(w.last() == ')');
    assert(trim_end(w) == w);
    assert(!"POINT"@.is_prefix_of(w)) by {
        assert(w[0] != "POINT"@[0]);
        if "POINT"@.is_prefix_of(w) {
            assert(w.subrange(0, 5)[0] == w[0]);
        }
    }
    assert("LINESTRING"@.is_prefix_of(w)) by {
        assert(w.subrange(0, 10) =~= "LINESTRING"@);
    }
    let rest = w.skip(10);
    assert(rest.len() == (" "@ + list).len());
    assert forall|i: int| 0 <= i < rest.len() implies rest[i] == (" "@ + list)[i] by {
        if i >= 2 {
            assert(rest[i] == w[i + 10]);
        }
    }
    assert(rest =~= " "@ + list);
    assert(rest[0] == ' ');
    assert(rest.drop_first() =~= list);
    assert(trim_start(rest) == trim_start(list));
    assert(list[0] == '(');
    assert(trim_start(list) == list);
    assert(list.last() == ')');
    assert(trim_end(list) == list);
    assert(trim(rest) == list);
    assert(linestring_wkt(w) == Ok::<GeometryView, Seq<char>>(GeometryView::LineString(points)));
}

/// A ring written as text: its pairs in parentheses.
pub open spec fn ring_wkt_text(ring: Seq<PointView>) -> Seq<char> {
    "("@ + pairs_text(ring) + ")"@
}

/// Rings written as text, separated by `, `.
pub open spec fn rings_text(rings: Seq<Seq<PointView>>) -> Seq<char>
    decreases rings.len(),
{
    if rings.len() == 0 {
        Seq::<char>::empty()
    } else if rings.len() == 1 {
        ring_wkt_text(rings[0])
    } else {
        ring_wkt_text(rings[0]) + ", "@ + rings_text(rings.drop_first())
    }
}

/// A ring of at least one point, each coordinate the text of an `f64`.
pub open spec fn is_float_ring(ring: Seq<PointView>) -> bool {
    ring.len() >= 1 && forall|i: int| 0 <= i < ring.len() ==> is_float_pair(#[trigger] ring[i])
}

proof fn lemma_pairs_text_chars(points: Seq<PointView>)
    requires
        forall|i: int| 0 <= i < points.len() ==> is_float_pair(#[trigger] points[i]),
    ensures
        forall|i: int| 0 <= i < pairs_text(points).len() ==> is_float_char(#[trigger] pairs_text(points)[i])
            || pairs_text(points)[i] == ' ' || pairs_text(points)[i] == ',',
    decreases points.len(),
{
    reveal_strlit(" ");
    reveal_strlit(", ");
    if points.len() >= 1 {
        lemma_float_text_chars(points[0].x);
        lemma_float_text_chars(points[0].y);
        let t = pair_text(points[0]);
        assert forall|i: int| 0 <= i < t.len() implies is_float_char(#[trigger] t[i]) || t[i] == ' ' by {
            if i < points[0].x.len() {
                assert(t[i] == points[0].x[i]);
            } else if i > points[0].x.len() {
                assert(t[i] == points[0].y[i - points[0].x.len() - 1]);
            }
        }
        if points.len() > 1 {
            let rest = points.drop_first();
            assert forall|i: int| 0 <= i < rest.len() implies is_float_pair(#[trigger] rest[i]) by {
                assert(rest[i] == points[i + 1]);
            }
            lemma_pairs_text_chars(rest);
            let u = pairs_text(rest);
            let all = pairs_text(points);
            assert(all =~= t + ", "@ + u);
            assert forall|i: int| 0 <= i < all.len() implies is_float_char(#[trigger] all[i]) || all[i] == ' ' || all[i] == ',' by {
                if i < t.len() {
                    assert(all[i] == t[i]);
                } else if i >= t.len() + 2 {
                    assert(all[i] == u[i - t.len() - 2]);
                }
            }
        }
    }
}

proof fn lemma_split_inclusive_first(a: Seq<char>, pat: Seq<char>, b: Seq<char>)
    requires
        pat.len() > 0,
        forall|i: int| 0 <= i < a.len() ==> #[trigger] a[i] != pat[0],
    ensures
        split_inclusive(a + pat + b, pat) == seq![a + pat] + split_inclusive(b, pat),
    decreases a.len(),
{
    let s = a + pat + b;
    if a.len() == 0 {
        assert(s =~= pat + b);
        assert(pat.is_prefix_of(s)) by {
            assert(s.subrange(0, pat.len() as int) =~= pat);
        }
        assert(s.skip(pat.len() as int) =~= b);
        assert(a + pat =~= pat);
    } else {
        let a1 = a.drop_first();
        assert forall|i: int| 0 <= i < a1.len() implies #[trigger] a1[i] != pat[0] by {
            assert(a1[i] == a[i + 1]);
        }
        lemma_split_inclusive_first(a1, pat, b);
        assert(s[0] == a[0]);
        assert(!pat.is_prefix_of(s)) by {
            if pat.is_prefix_of(s) {
                assert(s.subrange(0, pat.len() as int)[0] == s[0]);
            }
        }
        assert(s.drop_first() =~= a1 + pat + b);
        let r = seq![a1 + pat] + split_inclusive(b, pat);
        assert(glue_front(seq![s[0]], r) =~= seq![a + pat] + split_inclusive(b, pat)) by {
            assert(seq![s[0]] + (a1 + pat) =~= a + pat);
        }
    }
}

proof fn lemma_split_inclusive_whole(a: Seq<char>, pat: Seq<char>)
    requires
        a.len() > 0,
        pat.len() > 1,
        forall|i: int| 0 <= i < a.len() - 1 ==> #[trigger] a[i] != pat[0],
    ensures
        split_inclusive(a, pat) == seq![a],
    decreases a.len(),
{
    assert(!pat.is_prefix_of(a)) by {
        if pat.is_prefix_of(a) {
            assert(a.subrange(0, pat.len() as int)[0] == a[0]);
            assert(a.len() >= 2);
        }
    }
    let a1 = a.drop_first();
    if a1.len() == 0 {
        assert(split_inclusive(a1, pat) =~= Seq::<Seq<char>>::empty());
        assert(seq![a[0]] =~= a);
    } else {
        assert forall|i: int| 0 <= i < a1.len() - 1 implies #[trigger] a1[i] != pat[0] by {
            assert(a1[i] == a[i + 1]);
        }
        lemma_split_inclusive_whole(a1, pat);
        assert(seq![a1].update(0, seq![a[0]] + a1) =~= seq![a]) by {
            assert(seq![a[0]] + a1 =~= a);
        }
    }
}

/// The pieces that `rings_text(rings)` is split into after each `), `.
pub open spec fn ring_pieces(rings: Seq<Seq<PointView>>) -> Seq<Seq<char>> {
    Seq::new(
        rings.len(),
        |i: int| if i < rings.len() - 1 { ring_wkt_text(rings[i]) + ", "@ } else { ring_wkt_text(rings[i]) },
    )
}

proof fn lemma_ring_text_no_close(ring: Seq<PointView>)
    requires
        is_float_ring(ring),
    ensures
        forall|i: int| 0 <= i < ring_wkt_text(ring).len() - 1 ==> #[trigger] ring_wkt_text(ring)[i] != ')',
        ring_wkt_text(ring).len() >= 2,
        ring_wkt_text(ring).last() == ')',
{
    reveal_strlit("(");
    reveal_strlit(")");
    lemma_pairs_text_chars(ring);
    let p = pairs_text(ring);
    let t = ring_wkt_text(ring);
    assert forall|i: int| 0 <= i < t.len() - 1 implies #[trigger] t[i] != ')' by {
        if i > 0 {
            assert(t[i] == p[i - 1]);
        }
    }
}

proof fn lemma_split_rings_text(rings: Seq<Seq<PointView>>)
    requires
        rings.len() >= 1,
        forall|i: int| 0 <= i < rings.len() ==> is_float_ring(#[trigger] rings[i]),
    ensures
        split_inclusive(rings_text(rings), "), "@) == ring_pieces(rings),
    decreases rings.len(),
{
    reveal_strlit("), ");
    reveal_strlit(", ");
    reveal_strlit(")");
    lemma_ring_text_no_close(rings[0]);
    let t0 = ring_wkt_text(rings[0]);
    if rings.len() == 1 {
        lemma_split_inclusive_whole(t0, "), "@);
        assert(ring_pieces(rings) =~= seq![t0]);
    } else {
        let rest = rings.drop_first();
        assert forall|i: int| 0 <= i < rest.len() implies is_float_ring(#[trigger] rest[i]) by {
            assert(rest[i] == rings[i + 1]);
        }
        lemma_split_rings_text(rest);
        let a = t0.drop_last();
        assert forall|i: int| 0 <= i < a.len() implies #[trigger] a[i] != "), "@[0] by {
            assert(a[i] == t0[i]);
        }
        assert(rings_text(rings) =~= a + "), "@ + rings_text(rest)) by {
            assert(t0 =~= a.push(')'));
        }
        lemma_split_inclusive_first(a, "), "@, rings_text(rest));
        assert(a + "), "@ =~= t0 + ", "@) by {
            assert(t0 =~= a.push(')'));
        }
        assert(seq![t0 + ", "@] + ring_pieces(rest) =~= ring_pieces(rings));
    }
}

proof fn lemma_ring_text_of_piece(ring: Seq<PointView>, last: bool)
    requires
        is_float_ring(ring),
    ensures
        ring_text(if last { ring_wkt_text(ring) } else { ring_wkt_text(ring) + ", "@ }) == ring_wkt_text(ring),
{
    reveal_strlit(", ");
    reveal_strlit(",");
    reveal_strlit("(");
    reveal_strlit(")");
    lemma_ring_text_no_close(ring);
    let t = ring_wkt_text(ring);
    assert(t[0] == '(');
    if last {
        assert(trim_start(t) == t);
        assert(trim_end(t) == t);
        assert(!","@.is_suffix_of(t)) by {
            if ","@.is_suffix_of(t) {
                assert(t.subrange(t.len() - 1, t.len() as int)[0] == t.last());
            }
        }
    } else {
        let u = t + ", "@;
        assert(u[0] == '(');
        assert(trim_start(u) == u);
        let v = t.push(',');
        assert(u.drop_last() =~= v);
        assert(is_white_space(u.last()));
        assert(trim_end(v) == v);
        assert(trim_end(u) == trim_end(v));
        assert(","@.is_suffix_of(v)) by {
            assert(v.subrange(v.len() - 1, v.len() as int) =~= ","@);
        }
        assert(v.take(v.len() - 1) =~= t);
    }
}

/// Rings written as the text of a polygon, `POLYGON ((x y, ...), (x y, ...))`,
/// are read back by the ring reader as those rings, in order. The reading does
/// not check that the rings close, so this says nothing of whether the text is
/// accepted as a polygon: that depends on float equality of each ring's first
/// and last points, which the caller decides.
pub proof fn law_polygon_rings_round_trip(rings: Seq<Seq<PointView>>)
    requires
        rings.len() >= 1,
        forall|i: int| 0 <= i < rings.len() ==> is_float_ring(#[trigger] rings[i]),
    ensures
        wkt_read("POLYGON ("@ + rings_text(rings) + ")"@) == Ok::<GeometryView, Seq<char>>(
            GeometryView::Polygon(rings),
        ),
{
    reveal_strlit("POLYGON (");
    reveal_strlit("POLYGON");
    reveal_strlit("POINT");
    reveal_strlit("LINESTRING");
    reveal_strlit(")");
    let body = rings_text(rings);
    let w = "POLYGON ("@ + body + ")"@;
    assert(w[0] == 'P');
    assert(trim_start(w) == w);
    assert(w.last() == ')');
    assert(trim_end(w) == w);
    assert(!"POINT"@.is_prefix_of(w)) by {
        if "POINT"@.is_prefix_of(w) {
            assert(w.subrange(0, 5)[2] == w[2]);
        }
    }
    assert(!"LINESTRING"@.is_prefix_of(w)) by {
        if "LINESTRING"@.is_prefix_of(w) {
            assert(w.subrange(0, 10)[0] == w[0]);
        }
    }
    assert("POLYGON"@.is_prefix_of(w)) by {
        assert(w.subrange(0, 7) =~= "POLYGON"@);
    }
    assert(strip_prefix(w, "POLYGON ("@) == Some(body + ")"@)) by {
        assert(w.subrange(0, 9) =~= "POLYGON ("@);
        assert(w.skip(9) =~= body + ")"@);
    }
    let open = body + ")"@;
    assert(strip_suffix(open, ")"@) == Some(body)) by {
        assert(open.subrange(open.len() - 1, open.len() as int) =~= ")"@);
        assert(open.take(open.len() - 1) =~= body);
    }
    lemma_split_rings_text(rings);
    let pieces = ring_pieces(rings);
    let results = pieces.map_values(|piece: Seq<char>| linestring_from(ring_text(piece)));
    assert forall|i: int| 0 <= i < results.len() implies #[trigger] results[i] == Ok::<Seq<PointView>, Seq<char>>(rings[i]) by {
        lemma_ring_text_of_piece(rings[i], i == rings.len() - 1);
        law_linestring_round_trip(rings[i]);
        assert(ring_text(pieces[i]) == ring_wkt_text(rings[i]));
    }
    lemma_collect_all_ok(results, rings);
    assert(polygon_rings_wkt(w) == Ok::<GeometryView, Seq<char>>(GeometryView::Polygon(rings)));
}

/// White space around well-known text does not change what it reads as.
pub proof fn law_read_ignores_surrounding_white_space(a: Seq<char>, w: Seq<char>, b: Seq<char>)
    requires
        all_white_space(a),
        all_white_space(b),
    ensures
        wkt_read(a + w + b) == wkt_read(w),
{
    law_trim_ignores_surrounding_white_space(a, w, b);
    law_trim_ignores_surrounding_white_space(Seq::<char>::empty(), w, Seq::<char>::empty());
    assert(Seq::<char>::empty() + w + Seq::<char>::empty() =~= w);
}

/// A polygon written as well-known text and followed by a line break, as a
/// file holds it, reads back as its rings.
pub proof fn law_polygon_line_reads_back(rings: Seq<Seq<PointView>>)
    requires
        rings.len() >= 1,
        forall|i: int| 0 <= i < rings.len() ==> is_float_ring(#[trigger] rings[i]),
    ensures
        wkt_read("POLYGON ("@ + rings_text(rings) + ")"@ + seq!['\n']) == Ok::<GeometryView, Seq<char>>(
            GeometryView::Polygon(rings),
        ),
{
    let w = "POLYGON ("@ + rings_text(rings) + ")"@;
    law_read_ignores_surrounding_white_space(Seq::<char>::empty(), w, seq!['\n']);
    assert(Seq::<char>::empty() + w + seq!['\n'] =~= w + seq!['\n']);
    law_polygon_rings_round_trip(rings);
}

proof fn lemma_first_non_float_none(tokens: Seq<Seq<char>>)
    ensures
        first_non_float(tokens) is None <==> forall|i: int| 0 <= i < tokens.len() ==> is_float_text(#[trigger] tokens[i]),
    decreases tokens.len(),
{
    if tokens.len() > 0 {
        lemma_first_non_float_none(tokens.drop_first());
        if first_non_float(tokens) is None {
            assert forall|i: int| 0 <= i < tokens.len() implies is_float_text(#[trigger] tokens[i]) by {
                if i > 0 {
                    assert(tokens.drop_first()[i - 1] == tokens[i]);
                }
            }
        }
        if forall|i: int| 0 <= i < tokens.len() ==> is_float_text(#[trigger] tokens[i]) {
            assert(is_float_text(tokens[0]));
            assert forall|i: int| 0 <= i < tokens.drop_first().len() implies is_float_text(#[trigger] tokens.drop_first()[i]) by {
                assert(tokens.drop_first()[i] == tokens[i + 1]);
            }
        }
    }
}

/// A coordinate pair is read from exactly two numbers, and is those two
/// numbers, in order; words that are all numbers but not two of them are
/// refused with their count; a word that is not a number is refused.
pub proof fn law_pair_is_exactly_two_numbers(pair: Seq<char>)
    ensures
        point_from(pair) matches Ok(p) ==> {
            &&& words(pair) == seq![p.x, p.y]
            &&& is_float_text(p.x)
            &&& is_float_text(p.y)
        },
        (forall|i: int| 0 <= i < words(pair).len() ==> is_float_text(#[trigger] words(pair)[i]))
            && words(pair).len() != 2 ==> point_from(pair) == Err::<PointView, Seq<char>>(
            "Expected two numbers for coordinate pair, got: "@ + decimal(words(pair).len()),
        ),
        (exists|i: int| 0 <= i < words(pair).len() && !is_float_text(#[trigger] words(pair)[i]))
            ==> point_from(pair) is Err,
{
    let t = words(pair);
    lemma_first_non_float_none(t);
    if point_from(pair) is Ok {
        assert(t.len() == 2);
        assert(is_float_text(t[0]) && is_float_text(t[1]));
        assert(t =~= seq![t[0], t[1]]);
    }
}

/// The keyword at the start of the trimmed text decides what is read: `POINT`
/// text reads as a point or is refused, `LINESTRING` text as a line string,
/// `POLYGON` text as a polygon, and any other text is refused as unsupported.
pub proof fn law_keyword_decides_kind(text: Seq<char>)
    ensures
        "POINT"@.is_prefix_of(trim(text)) ==> (wkt_read(text) is Err || wkt_read(text) matches Ok(GeometryView::Point(_))),
        "LINESTRING"@.is_prefix_of(trim(text)) ==> (wkt_read(text) is Err || wkt_read(text) matches Ok(GeometryView::LineString(_))),
        "POLYGON"@.is_prefix_of(trim(text)) ==> (wkt_read(text) is Err || wkt_read(text) matches Ok(GeometryView::Polygon(_))),
        !"POINT"@.is_prefix_of(trim(text)) && !"LINESTRING"@.is_prefix_of(trim(text)) && !"POLYGON"@.is_prefix_of(trim(text))
            ==> wkt_read(text) == Err::<GeometryView, Seq<char>>("Unsupported WKT: "@ + trim(text)),
        !(wkt_read(text) matches Ok(GeometryView::MultiPolygon(_))),
{
    reveal_strlit("POINT");
    reveal_strlit("LINESTRING");
    reveal_strlit("POLYGON");
    let w = trim(text);
    if "LINESTRING"@.is_prefix_of(w) {
        assert(!"POINT"@.is_prefix_of(w)) by {
            assert(w.subrange(0, 10)[0] == w[0]);
            if "POINT"@.is_prefix_of(w) {
                assert(w.subrange(0, 5)[0] == w[0]);
            }
        }
    }
    if "POLYGON"@.is_prefix_of(w) {
        assert(w.subrange(0, 7)[2] == w[2]);
        assert(!"POINT"@.is_prefix_of(w)) by {
            if "POINT"@.is_prefix_of(w) {
                assert(w.subrange(0, 5)[2] == w[2]);
            }
        }
        assert(!"LINESTRING"@.is_prefix_of(w)) by {
            if "LINESTRING"@.is_prefix_of(w) {
                assert(w.subrange(0, 10)[0] == w[0]);
                assert(w.subrange(0, 7)[0] == w[0]);
            }
        }
    }
}

/// A list of coordinate pairs is read only from text in parentheses; text that
/// does not start with `(` is refused as a bad prefix, quoting it.
pub proof fn law_linestring_needs_parentheses(pairs: Seq<char>)
    ensures
        linestring_from(pairs) is Ok ==> pairs.len() >= 2 && pairs[0] == '(' && pairs.last() == ')',
        (pairs.len() == 0 || pairs[0] != '(') ==> linestring_from(pairs) == Err::<Seq<PointView>, Seq<char>>(
            "Bad prefix: "@ + pairs,
        ),
{
    reveal_strlit("(");
    reveal_strlit(")");
    if strip_prefix(pairs, "("@) is Some {
        assert(pairs.subrange(0, 1)[0] == pairs[0]);
        let open = pairs.skip(1);
        if strip_suffix(open, ")"@) is Some {
            assert(open.subrange(open.len() - 1, open.len() as int)[0] == open.last());
            assert(open.last() == pairs.last());
        }
    } else {
        if pairs.len() > 0 && pairs[0] == '(' {
            assert(pairs.subrange(0, 1) =~= "("@);
        }
    }
}

} // verus!
