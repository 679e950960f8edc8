use vstd::prelude::*;
use crate::number::{all_digits, digits_value, is_digit, is_float_text, is_mantissa, is_number, unsigned_part, usize_text_value};
use crate::text::{decimal, glue_front, split_inclusive, digit_char, is_white_space, split_on, trim, trim_end, trim_start, words};

verus! {

/// The Unicode White_Space characters, as the Unicode Character Database
/// (PropList.txt) lists them: tab, line feed, vertical tab, form feed,
/// carriage return, space, next line, no-break space, ogham space mark, the
/// spaces from en quad to hair space, line separator, paragraph separator,
/// narrow no-break space, medium mathematical space and ideographic space.
pub open spec fn listed_white_space(c: char) -> bool {
    ||| c == '\t'
    ||| c == '\n'
    ||| c == '\u{b}'
    ||| c == '\u{c}'
    ||| c == '\r'
    ||| c == ' '
    ||| c == '\u{85}'
    ||| c == '\u{a0}'
    ||| c == '\u{1680}'
    ||| c == '\u{2000}'
    ||| c == '\u{2001}'
    ||| c == '\u{2002}'
    ||| c == '\u{2003}'
    ||| c == '\u{2004}'
    ||| c == '\u{2005}'
    ||| c == '\u{2006}'
    ||| c == '\u{2007}'
    ||| c == '\u{2008}'
    ||| c == '\u{2009}'
    ||| c == '\u{200a}'
    ||| c == '\u{2028}'
    ||| c == '\u{2029}'
    ||| c == '\u{202f}'
    ||| c == '\u{205f}'
    ||| c == '\u{3000}'
}

proof fn lemma_words_start_nonempty(t: Seq<char>)
    requires
        t.len() > 0,
        !is_white_space(t[0]),
    ensures
        words(t).len() > 0,
    decreases t.len(),
{
    if t.len() > 1 && !is_white_space(t[1]) {
        lemma_words_start_nonempty(t.drop_first());
    }
}

proof fn lemma_words_split(a: Seq<char>, c: char, b: Seq<char>)
    requires
        is_white_space(c),
    ensures
        words(a + seq![c] + b) == words(a) + words(b),
    decreases a.len(),
{
    let s = a + seq![c] + b;
    if a.len() == 0 {
        assert(s[0] == c);
        assert(s.drop_first() =~= b);
        assert(words(a) =~= Seq::<Seq<char>>::empty());
        assert(words(a) + words(b) =~= words(b));
    } else {
        let a1 = a.drop_first();
        assert(s[0] == a[0]);
        assert(s.drop_first() =~= a1 + seq![c] + b);
        lemma_words_split(a1, c, b);
        if is_white_space(a[0]) {
        } else {
            let r = words(a1);
            if a1.len() > 0 && !is_white_space(a1[0]) {
                lemma_words_start_nonempty(a1);
                assert(s[1] == a1[0]);
                assert(a[1] == a1[0]);
                assert((r + words(b)).update(0, seq![a[0]] + (r + words(b))[0]) =~= r.update(
                    0,
                    seq![a[0]] + r[0],
                ) + words(b));
            } else {
                assert(s[1] == (if a1.len() > 0 { a1[0] } else { c }));
                assert(seq![seq![a[0]]] + (r + words(b)) =~= (seq![seq![a[0]]] + r) + words(b));
            }
        }
    }
}

/// Text is split into words at every Unicode White_Space character: a white
/// space character between two texts separates their words, and any other
/// single character is a word of its own.
pub proof fn law_words_split_at_white_space(a: Seq<char>, c: char, b: Seq<char>)
    ensures
        listed_white_space(c) ==> words(a + seq![c] + b) == words(a) + words(b),
        !listed_white_space(c) ==> words(seq![c]) == seq![seq![c]],
{
    if listed_white_space(c) {
        lemma_words_split(a, c, b);
    } else {
        assert(!is_white_space(c));
        let s = seq![c];
        assert(s.drop_first() =~= Seq::<char>::empty());
        assert(words(s.drop_first()) =~= Seq::<Seq<char>>::empty());
        assert(seq![seq![s[0]]] + Seq::<Seq<char>>::empty() =~= seq![seq![c]]);
    }
}

/// Every character of `s` is white space.
pub open spec fn all_white_space(s: Seq<char>) -> bool {
    forall|i: int| 0 <= i < s.len() ==> listed_white_space(#[trigger] s[i])
}

proof fn lemma_trim_start_skips(a: Seq<char>, x: Seq<char>)
    requires
        all_white_space(a),
    ensures
        trim_start(a + x) == trim_start(x),
    decreases a.len(),
{
    if a.len() > 0 {
        let s = a + x;
        assert(s[0] == a[0]);
        assert(listed_white_space(a[0]));
        assert(s.drop_first() =~= a.drop_first() + x);
        assert(all_white_space(a.drop_first())) by {
            assert forall|i: int| 0 <= i < a.drop_first().len() implies listed_white_space(#[trigger] a.drop_first()[i]) by {
                assert(a.drop_first()[i] == a[i + 1]);
            }
        }
        lemma_trim_start_skips(a.drop_first(), x);
    } else {
        assert(a + x =~= x);
    }
}

proof fn lemma_trim_end_skips(x: Seq<char>, b: Seq<char>)
    requires
        all_white_space(b),
    ensures
        trim_end(x + b) == trim_end(x),
    decreases b.len(),
{
    if b.len() > 0 {
        let s = x + b;
        assert(s.last() == b.last());
        assert(listed_white_space(b[b.len() - 1]));
        assert(s.drop_last() =~= x + b.drop_last());
        assert(all_white_space(b.drop_last())) by {
            assert forall|i: int| 0 <= i < b.drop_last().len() implies listed_white_space(#[trigger] b.drop_last()[i]) by {
                assert(b.drop_last()[i] == b[i]);
            }
        }
        lemma_trim_end_skips(x, b.drop_last());
    } else {
        assert(x + b =~= x);
    }
}

proof fn lemma_trim_start_append(w: Seq<char>, b: Seq<char>)
    ensures
        trim_start(w).len() > 0 ==> trim_start(w + b) == trim_start(w) + b,
        trim_start(w).len() == 0 ==> trim_start(w + b) == trim_start(b),
    decreases w.len(),
{
    if w.len() == 0 {
        assert(w + b =~= b);
    } else {
        let s = w + b;
        assert(s[0] == w[0]);
        assert(s.drop_first() =~= w.drop_first() + b);
        lemma_trim_start_append(w.drop_first(), b);
    }
}

proof fn lemma_trim_start_all(b: Seq<char>)
    requires
        all_white_space(b),
    ensures
        trim_start(b).len() == 0,
{
    lemma_trim_start_skips(b, Seq::<char>::empty());
    assert(b + Seq::<char>::empty() =~= b);
}

/// White space around a text does not change the text it trims to.
pub proof fn law_trim_ignores_surrounding_white_space(a: Seq<char>, w: Seq<char>, b: Seq<char>)
    requires
        all_white_space(a),
        all_white_space(b),
    ensures
        trim(a + w + b) == trim(w),
{
    lemma_trim_start_skips(a, w + b);
    assert(a + w + b =~= a + (w + b));
    lemma_trim_start_append(w, b);
    if trim_start(w).len() > 0 {
        lemma_trim_end_skips(trim_start(w), b);
    } else {
        lemma_trim_start_all(b);
        assert(trim_start(b) =~= trim_start(w));
    }
}

/// A number's decimal text is digits only, starts with `0` only when the number
/// is zero, and reads back as the number.
pub proof fn law_decimal_reads_back(n: nat)
    ensures
        decimal(n).len() >= 1,
        all_digits(decimal(n)),
        digits_value(decimal(n)) == n,
        decimal(n)[0] == '0' ==> n == 0 && decimal(n).len() == 1,
    decreases n,
{
    let d = decimal(n);
    if n < 10 {
        assert(d.drop_last() =~= Seq::<char>::empty());
        assert(digit_char(n as int) as nat - '0' as nat == n);
        assert(d.last() == digit_char(n as int));
        assert(digits_value(d.drop_last()) == 0);
        assert(digits_value(d) == digits_value(d.drop_last()) * 10 + (d.last() as nat - '0' as nat) as nat);
    } else {
        law_decimal_reads_back(n / 10);
        let x = decimal(n / 10);
        let c = digit_char((n % 10) as int);
        assert(d == x.push(c));
        assert(d.drop_last() =~= x);
        assert(c as nat - '0' as nat == n % 10);
        assert(d.last() == c);
        assert(digits_value(d) == digits_value(d.drop_last()) * 10 + (d.last() as nat - '0' as nat) as nat);
        assert(digits_value(d) == (n / 10) * 10 + n % 10);
        assert(d[0] == x[0]);
        assert forall|i: int| 0 <= i < d.len() implies crate::number::is_digit(#[trigger] d[i]) by {
            if i < x.len() {
                assert(d[i] == x[i]);
            }
        }
    }
}

/// Pieces joined back together with `sep` between them.
pub open spec fn join_with(pieces: Seq<Seq<char>>, sep: char) -> Seq<char>
    decreases pieces.len(),
{
    if pieces.len() == 0 {
        Seq::<char>::empty()
    } else if pieces.len() == 1 {
        pieces[0]
    } else {
        pieces[0] + seq![sep] + join_with(pieces.drop_first(), sep)
    }
}

proof fn lemma_join_front(pieces: Seq<Seq<char>>, p: Seq<char>, sep: char)
    requires
        pieces.len() >= 1,
    ensures
        join_with(pieces.update(0, p + pieces[0]), sep) == p + join_with(pieces, sep),
{
    let q = pieces.update(0, p + pieces[0]);
    if pieces.len() > 1 {
        assert(q.drop_first() =~= pieces.drop_first());
        assert((p + pieces[0]) + seq![sep] + join_with(pieces.drop_first(), sep) =~= p + (pieces[0] + seq![sep]
            + join_with(pieces.drop_first(), sep)));
    }
}

/// Splitting at `sep` loses nothing and finds every `sep`: the pieces hold no
/// `sep`, and joined back with `sep` between them they give the text.
pub proof fn law_split_rejoins(s: Seq<char>, sep: char)
    ensures
        split_on(s, sep).len() >= 1,
        join_with(split_on(s, sep), sep) == s,
        forall|i: int, k: int|
            0 <= i < split_on(s, sep).len() && 0 <= k < split_on(s, sep)[i].len() ==> #[trigger] split_on(s, sep)[i][k]
                != sep,
    decreases s.len(),
{
    if s.len() == 0 {
        assert(split_on(s, sep) =~= seq![Seq::<char>::empty()]);
        assert(s =~= Seq::<char>::empty());
    } else {
        let t = s.drop_first();
        law_split_rejoins(t, sep);
        let r = split_on(t, sep);
        if s[0] == sep {
            let q = seq![Seq::<char>::empty()] + r;
            assert(q.drop_first() =~= r);
            assert(Seq::<char>::empty() + seq![sep] + join_with(r, sep) =~= s);
            assert forall|i: int, k: int| 0 <= i < q.len() && 0 <= k < q[i].len() implies #[trigger] q[i][k] != sep by {
                assert(q[i] == r[i - 1]);
            }
        } else {
            lemma_join_front(r, seq![s[0]], sep);
            assert(seq![s[0]] + t =~= s);
            let q = r.update(0, seq![s[0]] + r[0]);
            assert forall|i: int, k: int| 0 <= i < q.len() && 0 <= k < q[i].len() implies #[trigger] q[i][k] != sep by {
                if i == 0 {
                    if k > 0 {
                        assert(q[0][k] == r[0][k - 1]);
                    }
                } else {
                    assert(q[i] == r[i]);
                }
            }
        }
    }
}

proof fn lemma_trim_start_shape(s: Seq<char>) -> (k: int)
    ensures
        0 <= k <= s.len(),
        trim_start(s) == s.skip(k),
        all_white_space(s.take(k)),
        trim_start(s).len() > 0 ==> !is_white_space(trim_start(s)[0]),
    decreases s.len(),
{
    if s.len() > 0 && is_white_space(s[0]) {
        let k1 = lemma_trim_start_shape(s.drop_first());
        assert(s.drop_first().skip(k1) =~= s.skip(k1 + 1));
        assert forall|i: int| 0 <= i < s.take(k1 + 1).len() implies listed_white_space(#[trigger] s.take(k1 + 1)[i]) by {
            if i > 0 {
                assert(s.take(k1 + 1)[i] == s.drop_first().take(k1)[i - 1]);
            }
        }
        k1 + 1
    } else {
        assert(s.skip(0) =~= s);
        0
    }
}

proof fn lemma_trim_end_shape(s: Seq<char>) -> (j: int)
    ensures
        0 <= j <= s.len(),
        trim_end(s) == s.take(j),
        all_white_space(s.skip(j)),
        trim_end(s).len() > 0 ==> !is_white_space(trim_end(s).last()),
    decreases s.len(),
{
    if s.len() > 0 && is_white_space(s.last()) {
        let j1 = lemma_trim_end_shape(s.drop_last());
        assert(s.drop_last().take(j1) =~= s.take(j1));
        assert forall|i: int| 0 <= i < s.skip(j1).len() implies listed_white_space(#[trigger] s.skip(j1)[i]) by {
            if j1 + i < s.len() - 1 {
                assert(s.skip(j1)[i] == s.drop_last().skip(j1)[i]);
            }
        }
        j1
    } else {
        assert(s.take(s.len() as int) =~= s);
        assert(s.skip(s.len() as int) =~= Seq::<char>::empty());
        s.len() as int
    }
}

/// Trimming removes exactly the white space at both ends: the text is the
/// trimmed text with only white space before and after it, and the trimmed
/// text, unless empty, neither starts nor ends with white space.
pub proof fn law_trim_removes_only_end_white_space(s: Seq<char>)
    ensures
        exists|i: int, j: int|
            0 <= i <= j <= s.len() && trim(s) == s.subrange(i, j) && all_white_space(#[trigger] s.take(i))
                && all_white_space(#[trigger] s.skip(j)),
        trim(s).len() > 0 ==> !listed_white_space(trim(s)[0]) && !listed_white_space(trim(s).last()),
{
    let k = lemma_trim_start_shape(s);
    let u = s.skip(k);
    let j = lemma_trim_end_shape(u);
    assert(u.take(j) =~= s.subrange(k, k + j));
    assert(u.skip(j) =~= s.skip(k + j));
    assert(all_white_space(s.take(k)) && all_white_space(s.skip(k + j)));
    if trim(s).len() > 0 {
        assert(trim(s)[0] == u[0]);
    }
}

/// A text without white space, unless empty, is a single word.
pub proof fn law_text_without_white_space_is_one_word(w: Seq<char>)
    requires
        w.len() > 0,
        forall|i: int| 0 <= i < w.len() ==> !listed_white_space(#[trigger] w[i]),
    ensures
        words(w) == seq![w],
    decreases w.len(),
{
    assert(!is_white_space(w[0]));
    let w1 = w.drop_first();
    if w1.len() == 0 {
        assert(words(w1) =~= Seq::<Seq<char>>::empty());
        assert(seq![seq![w[0]]] + words(w1) =~= seq![w]) by {
            assert(seq![w[0]] =~= w);
        }
    } else {
        assert forall|i: int| 0 <= i < w1.len() implies !listed_white_space(#[trigger] w1[i]) by {
            assert(w1[i] == w[i + 1]);
        }
        law_text_without_white_space_is_one_word(w1);
        assert(w[1] == w1[0]);
        assert(!is_white_space(w[1]));
        assert(seq![w1].update(0, seq![w[0]] + w1) =~= seq![w]) by {
            assert(seq![w[0]] + w1 =~= w);
        }
    }
}

/// Text read as a `usize` is digits only, after an optional `+`: no minus
/// sign, no space, no point. The decimal text of every `usize`, with or
/// without a leading `+`, reads back as that number.
pub proof fn law_usize_text(s: Seq<char>, n: nat)
    ensures
        usize_text_value(s) is Some ==> s.len() >= 1 && (all_digits(s) || (s[0] == '+' && s.len() >= 2
            && all_digits(s.drop_first()))),
        n <= usize::MAX ==> usize_text_value(decimal(n)) == Some(n),
        n <= usize::MAX ==> usize_text_value(seq!['+'] + decimal(n)) == Some(n),
{
    law_decimal_reads_back(n);
    let d = decimal(n);
    assert(!(d[0] == '+'));
    assert((seq!['+'] + d).drop_first() =~= d);
}

/// The decimal text of any number, with or without a sign, with a fraction
/// after a point, or with an exponent, is the text of an `f64`.
pub proof fn law_decimal_is_float_text(n: nat, m: nat)
    ensures
        is_float_text(decimal(n)),
        is_float_text(seq!['-'] + decimal(n)),
        is_float_text(seq!['+'] + decimal(n)),
        is_float_text(decimal(n) + seq!['.'] + decimal(m)),
        is_float_text(decimal(n) + seq!['e'] + decimal(m)),
        is_float_text(decimal(n) + seq!['E', '-'] + decimal(m)),
{
    law_decimal_reads_back(n);
    law_decimal_reads_back(m);
    let d = decimal(n);
    let e = decimal(m);
    assert(is_digit(d[0]));
    assert(is_mantissa(d)) by {
        assert forall|i: int, j: int| 0 <= i < d.len() && 0 <= j < d.len() && #[trigger] d[i] == '.' && #[trigger] d[j] == '.' implies i == j by {
            assert(is_digit(d[i]));
        }
        assert(is_digit(d[0]));
    }
    assert(unsigned_part(d) == d);
    assert((seq!['-'] + d).drop_first() =~= d);
    assert((seq!['+'] + d).drop_first() =~= d);
    let f = d + seq!['.'] + e;
    assert(unsigned_part(f) == f);
    assert(is_mantissa(f)) by {
        assert forall|i: int| 0 <= i < f.len() implies is_digit(#[trigger] f[i]) || f[i] == '.' by {
            if i < d.len() {
                assert(f[i] == d[i]);
            } else if i > d.len() {
                assert(f[i] == e[i - d.len() - 1]);
            }
        }
        assert forall|i: int, j: int| 0 <= i < f.len() && 0 <= j < f.len() && #[trigger] f[i] == '.' && #[trigger] f[j] == '.' implies i == j by {
            if i < d.len() {
                assert(f[i] == d[i]);
                assert(is_digit(d[i]));
            } else if i > d.len() {
                assert(f[i] == e[i - d.len() - 1]);
                assert(is_digit(e[i - d.len() - 1]));
            }
            if j < d.len() {
                assert(f[j] == d[j]);
                assert(is_digit(d[j]));
            } else if j > d.len() {
                assert(f[j] == e[j - d.len() - 1]);
                assert(is_digit(e[j - d.len() - 1]));
            }
        }
        assert(f[0] == d[0]);
    }
    let g = d + seq!['e'] + e;
    assert(unsigned_part(g) == g);
    assert(g.take(d.len() as int) =~= d);
    let gx = g.skip(d.len() as int);
    assert(gx =~= seq!['e'] + e);
    assert(gx.skip(1) =~= e);
    assert(crate::number::is_exponent(gx));
    assert(is_number(g));
    let h = d + seq!['E', '-'] + e;
    assert(unsigned_part(h) == h);
    assert(h.take(d.len() as int) =~= d);
    let hx = h.skip(d.len() as int);
    assert(hx =~= seq!['E', '-'] + e);
    assert(hx.skip(2) =~= e);
    assert(crate::number::is_exponent(hx));
    assert(is_number(h));
}

/// The concatenation of pieces.
pub open spec fn concat_all(pieces: Seq<Seq<char>>) -> Seq<char>
    decreases pieces.len(),
{
    if pieces.len() == 0 {
        Seq::<char>::empty()
    } else {
        pieces[0] + concat_all(pieces.drop_first())
    }
}

proof fn lemma_concat_glue(x: Seq<char>, pieces: Seq<Seq<char>>)
    ensures
        concat_all(glue_front(x, pieces)) == x + concat_all(pieces),
{
    if pieces.len() == 0 {
        assert(concat_all(pieces) =~= Seq::<char>::empty());
        if x.len() == 0 {
            assert(x =~= Seq::<char>::empty());
            assert(x + Seq::<char>::empty() =~= x);
            assert(concat_all(glue_front(x, pieces)) =~= Seq::<char>::empty());
        } else {
            let q = seq![x];
            assert(glue_front(x, pieces) == q);
            assert(q.drop_first() =~= Seq::<Seq<char>>::empty());
            assert(concat_all(q) == q[0] + concat_all(q.drop_first()));
            assert(x + Seq::<char>::empty() =~= x);
        }
    } else {
        let q = pieces.update(0, x + pieces[0]);
        assert(q.drop_first() =~= pieces.drop_first());
        assert((x + pieces[0]) + concat_all(pieces.drop_first()) =~= x + (pieces[0] + concat_all(pieces.drop_first())));
    }
}

/// Splitting after each occurrence of `pat` loses nothing: the pieces are not
/// empty, put together they give the text, and every piece but the last ends
/// with `pat`.
pub proof fn law_split_inclusive_rejoins(s: Seq<char>, pat: Seq<char>)
    requires
        pat.len() > 0,
    ensures
        concat_all(split_inclusive(s, pat)) == s,
        forall|i: int| 0 <= i < split_inclusive(s, pat).len() ==> #[trigger] split_inclusive(s, pat)[i].len() > 0,
        forall|i: int| 0 <= i < split_inclusive(s, pat).len() - 1 ==> pat.is_suffix_of(#[trigger] split_inclusive(s, pat)[i]),
    decreases s.len(),
{
    let r = split_inclusive(s, pat);
    if s.len() == 0 {
        assert(s =~= Seq::<char>::empty());
    } else if pat.is_prefix_of(s) {
        let t = s.skip(pat.len() as int);
        law_split_inclusive_rejoins(t, pat);
        let q = seq![pat] + split_inclusive(t, pat);
        assert(q.drop_first() =~= split_inclusive(t, pat));
        assert(pat + t =~= s);
        assert(pat.is_suffix_of(pat)) by {
            assert(pat.subrange(0, pat.len() as int) =~= pat);
        }
        assert forall|i: int| 0 <= i < q.len() implies #[trigger] q[i].len() > 0 by {
            if i > 0 { assert(q[i] == split_inclusive(t, pat)[i - 1]); }
        }
        assert forall|i: int| 0 <= i < q.len() - 1 implies pat.is_suffix_of(#[trigger] q[i]) by {
            if i > 0 { assert(q[i] == split_inclusive(t, pat)[i - 1]); }
        }
    } else {
        let t = s.drop_first();
        law_split_inclusive_rejoins(t, pat);
        let p = split_inclusive(t, pat);
        lemma_concat_glue(seq![s[0]], p);
        assert(seq![s[0]] + t =~= s);
        if p.len() > 0 {
            let q = p.update(0, seq![s[0]] + p[0]);
            assert forall|i: int| 0 <= i < q.len() - 1 implies pat.is_suffix_of(#[trigger] q[i]) by {
                if i == 0 {
                    let a = p[0];
                    let b = seq![s[0]] + a;
                    assert(pat.is_suffix_of(a));
                    assert(b.subrange(b.len() - pat.len(), b.len() as int) =~= a.subrange(a.len() - pat.len(), a.len() as int));
                } else {
                    assert(q[i] == p[i]);
                }
            }
            assert forall|i: int| 0 <= i < q.len() implies #[trigger] q[i].len() > 0 by {
                if i > 0 { assert(q[i] == p[i]); }
            }
        }
    }
}

} // verus!
