use vstd::prelude::*;

verus! {

/// Compares two string slices character by character.
pub fn str_eq(a: &str, b: &str) -> (res: bool)
    ensures
        res == (a@ == b@),
{
    let n = a.unicode_len();
    let m = b.unicode_len();
    if n != m {
        return false;
    }
    let mut i: usize = 0;
    while i < n
        invariant
            n == a@.len(),
            m == b@.len(),
            n == m,
            i <= n,
            forall|k: int| 0 <= k < i ==> a@[k] == b@[k],
        decreases n - i,
    {
        if a.get_char(i) != b.get_char(i) {
            return false;
        }
        i = i + 1;
    }
    assert(a@ =~= b@);
    true
}

/// Unicode White_Space, the property that `char::is_whitespace`, `str::trim`
/// and `str::split_whitespace` go by.
pub open spec fn is_white_space(c: char) -> bool {
    ||| ('\u{9}' <= c && c <= '\u{d}')
    ||| c == ' '
    ||| c == '\u{85}'
    ||| c == '\u{a0}'
    ||| c == '\u{1680}'
    ||| ('\u{2000}' <= c && c <= '\u{200a}')
    ||| c == '\u{2028}'
    ||| c == '\u{2029}'
    ||| c == '\u{202f}'
    ||| c == '\u{205f}'
    ||| c == '\u{3000}'
}

/// Whether `c` is Unicode White_Space.
pub fn white_space(c: char) -> (res: bool)
    ensures
        res == is_white_space(c),
{
    ('\u{9}' <= c && c <= '\u{d}') || c == ' ' || c == '\u{85}' || c == '\u{a0}' || c == '\u{1680}'
        || ('\u{2000}' <= c && c <= '\u{200a}') || c == '\u{2028}' || c == '\u{2029}' || c
        == '\u{202f}' || c == '\u{205f}' || c == '\u{3000}'
}

/// `s` without its leading white space.
pub open spec fn trim_start(s: Seq<char>) -> Seq<char>
    decreases s.len(),
{
    if s.len() > 0 && is_white_space(s[0]) {
        trim_start(s.drop_first())
    } else {
        s
    }
}

/// `s` without its trailing white space.
pub open spec fn trim_end(s: Seq<char>) -> Seq<char>
    decreases s.len(),
{
    if s.len() > 0 && is_white_space(s.last()) {
        trim_end(s.drop_last())
    } else {
        s
    }
}

/// `s` without leading and trailing white space, as `str::trim` gives it.
pub open spec fn trim(s: Seq<char>) -> Seq<char> {
    trim_end(trim_start(s))
}

proof fn lemma_trim_start_from(s: Seq<char>, i: int)
    requires
        0 <= i <= s.len(),
        forall|k: int| 0 <= k < i ==> is_white_space(s[k]),
    ensures
        trim_start(s) == trim_start(s.skip(i)),
    decreases i,
{
    if i > 0 {
        assert(s.skip(1).skip(i - 1) =~= s.skip(i));
        assert(s.drop_first() =~= s.skip(1));
        lemma_trim_start_from(s.drop_first(), i - 1);
    } else {
        assert(s.skip(0) =~= s);
    }
}

proof fn lemma_trim_end_to(s: Seq<char>, j: int)
    requires
        0 <= j <= s.len(),
        forall|k: int| j <= k < s.len() ==> is_white_space(s[k]),
    ensures
        trim_end(s) == trim_end(s.take(j)),
    decreases s.len() - j,
{
    if j < s.len() {
        assert(s.drop_last().take(j) =~= s.take(j));
        lemma_trim_end_to(s.drop_last(), j);
    } else {
        assert(s.take(j) =~= s);
    }
}

/// `s` with leading and trailing white space removed.
pub fn trim_str(s: &str) -> (res: &str)
    ensures
        res@ == trim(s@),
{
    let n = s.unicode_len();
    let mut i: usize = 0;
    while i < n && white_space(s.get_char(i))
        invariant
            n == s@.len(),
            i <= n,
            forall|k: int| 0 <= k < i ==> is_white_space(s@[k]),
        decreases n - i,
    {
        i = i + 1;
    }
    proof {
        lemma_trim_start_from(s@, i as int);
    }
    let ghost t = s@.skip(i as int);
    assert(trim_start(t) == t);
    let mut j: usize = n;
    while j > i && white_space(s.get_char(j - 1))
        invariant
            n == s@.len(),
            i <= j <= n,
            t == s@.skip(i as int),
            forall|k: int| j <= k < n ==> is_white_space(s@[k]),
        decreases j,
    {
        j = j - 1;
    }
    proof {
        lemma_trim_end_to(t, j - i);
        assert(t.take(j - i) =~= s@.subrange(i as int, j as int));
    }
    s.substring_char(i, j)
}

/// What `str::strip_prefix` gives: the rest of `s` after `prefix`, if `s` starts with it.
pub open spec fn strip_prefix(s: Seq<char>, prefix: Seq<char>) -> Option<Seq<char>> {
    if prefix.is_prefix_of(s) {
        Some(s.skip(prefix.len() as int))
    } else {
        None
    }
}

/// What `str::strip_suffix` gives: `s` before `suffix`, if `s` ends with it.
pub open spec fn strip_suffix(s: Seq<char>, suffix: Seq<char>) -> Option<Seq<char>> {
    if suffix.is_suffix_of(s) {
        Some(s.take(s.len() - suffix.len()))
    } else {
        None
    }
}

/// Whether `s` holds `pat` at position `at`.
pub fn matches_at(s: &str, at: usize, pat: &str) -> (res: bool)
    requires
        at <= s@.len(),
    ensures
        res == (at + pat@.len() <= s@.len() && s@.subrange(at as int, at + pat@.len()) == pat@),
{
    let n = s.unicode_len();
    let m = pat.unicode_len();
    if m > n - at {
        return false;
    }
    let mut k: usize = 0;
    while k < m
        invariant
            n == s@.len(),
            m == pat@.len(),
            at + m <= n,
            k <= m,
            forall|q: int| 0 <= q < k ==> s@[at + q] == pat@[q],
        decreases m - k,
    {
        if s.get_char(at + k) != pat.get_char(k) {
            assert(s@.subrange(at as int, at + m)[k as int] != pat@[k as int]);
            return false;
        }
        k = k + 1;
    }
    assert(s@.subrange(at as int, at + m) =~= pat@);
    true
}

/// `s` after `prefix`, if `s` starts with it.
pub fn strip_prefix_str<'a>(s: &'a str, prefix: &str) -> (res: Option<&'a str>)
    ensures
        res.deep_view() == strip_prefix(s@, prefix@),
{
    if matches_at(s, 0, prefix) {
        assert(s@.subrange(0, prefix@.len() as int) == s@.take(prefix@.len() as int));
        Some(s.substring_char(prefix.unicode_len(), s.unicode_len()))
    } else {
        None
    }
}

/// `s` before `suffix`, if `s` ends with it.
pub fn strip_suffix_str<'a>(s: &'a str, suffix: &str) -> (res: Option<&'a str>)
    ensures
        res.deep_view() == strip_suffix(s@, suffix@),
{
    let n = s.unicode_len();
    let m = suffix.unicode_len();
    if m > n {
        return None;
    }
    if matches_at(s, n - m, suffix) {
        Some(s.substring_char(0, n - m))
    } else {
        None
    }
}

/// The character of the decimal digit `d`.
pub open spec fn digit_char(d: int) -> char {
    if d == 0 { '0' }
    else if d == 1 { '1' }
    else if d == 2 { '2' }
    else if d == 3 { '3' }
    else if d == 4 { '4' }
    else if d == 5 { '5' }
    else if d == 6 { '6' }
    else if d == 7 { '7' }
    else if d == 8 { '8' }
    else { '9' }
}

/// `n` written in decimal, with no leading zeros, as `{}` formats an integer.
pub open spec fn decimal(n: nat) -> Seq<char>
    decreases n,
{
    if n < 10 {
        seq![digit_char(n as int)]
    } else {
        decimal(n / 10).push(digit_char((n % 10) as int))
    }
}

fn digit_str(d: usize) -> (res: &'static str)
    requires
        d < 10,
    ensures
        res@ == seq![digit_char(d as int)],
{
    proof {
        reveal_strlit("0");
        reveal_strlit("1");
        reveal_strlit("2");
        reveal_strlit("3");
        reveal_strlit("4");
        reveal_strlit("5");
        reveal_strlit("6");
        reveal_strlit("7");
        reveal_strlit("8");
        reveal_strlit("9");
    }
    let r = if d == 0 { "0" }
    else if d == 1 { "1" }
    else if d == 2 { "2" }
    else if d == 3 { "3" }
    else if d == 4 { "4" }
    else if d == 5 { "5" }
    else if d == 6 { "6" }
    else if d == 7 { "7" }
    else if d == 8 { "8" }
    else { "9" };
    assert(r@ =~= seq![digit_char(d as int)]);
    r
}

/// `n` written in decimal.
pub fn decimal_string(n: usize) -> (res: String)
    ensures
        res@ == decimal(n as nat),
{
    let mut rest: usize = n / 10;
    let mut s = String::from_str(digit_str(n % 10));
    assert(n < 10 ==> decimal(n as nat) =~= s@);
    assert(n >= 10 ==> decimal(n as nat) =~= decimal(rest as nat) + s@);
    while rest > 0
        invariant
            rest > 0 ==> decimal(n as nat) == decimal(rest as nat) + s@,
            rest == 0 ==> decimal(n as nat) == s@,
        decreases rest,
    {
        let mut t = String::from_str(digit_str(rest % 10));
        t.append(s.as_str());
        proof {
            if rest >= 10 {
                assert(decimal(rest as nat) + s@ =~= decimal((rest / 10) as nat) + t@);
            } else {
                assert(decimal(rest as nat) + s@ =~= t@);
            }
        }
        s = t;
        rest = rest / 10;
    }
    s
}

/// The pieces of `s` between the occurrences of `sep`, as `str::split` gives
/// them for a single character: empty pieces included, at least one piece.
pub open spec fn split_on(s: Seq<char>, sep: char) -> Seq<Seq<char>>
    decreases s.len(),
{
    if s.len() == 0 {
        seq![Seq::<char>::empty()]
    } else {
        let r = split_on(s.drop_first(), sep);
        if s[0] == sep {
            seq![Seq::<char>::empty()] + r
        } else {
            r.update(0, seq![s[0]] + r[0])
        }
    }
}

/// `str::split` always gives at least one piece.
pub proof fn lemma_split_on_nonempty(s: Seq<char>, sep: char)
    ensures
        split_on(s, sep).len() >= 1,
    decreases s.len(),
{
    if s.len() > 0 {
        lemma_split_on_nonempty(s.drop_first(), sep);
    }
}

/// The pieces of `s` between the occurrences of `sep`.
pub fn split_on_char<'a>(s: &'a str, sep: char) -> (res: Vec<&'a str>)
    ensures
        res.deep_view() == split_on(s@, sep),
{
    let n = s.unicode_len();
    let mut pieces: Vec<&'a str> = Vec::new();
    let mut start: usize = 0;
    let mut i: usize = 0;
    proof {
        let r0 = split_on(s@, sep);
        lemma_split_on_nonempty(s@, sep);
        assert(s@.skip(0) =~= s@);
        assert(s@.subrange(0, 0) + r0[0] =~= r0[0]);
        assert(r0.update(0, r0[0]) =~= r0);
        assert(pieces.deep_view() + r0 =~= r0);
    }
    while i < n
        invariant
            n == s@.len(),
            start <= i <= n,
            split_on(s@, sep) == pieces.deep_view() + {
                let r = split_on(s@.skip(i as int), sep);
                r.update(0, s@.subrange(start as int, i as int) + r[0])
            },
        decreases n - i,
    {
        let ghost t = s@.skip(i as int);
        let ghost r = split_on(t.drop_first(), sep);
        let ghost x = s@.subrange(start as int, i as int);
        proof {
            lemma_split_on_nonempty(t.drop_first(), sep);
            assert(t.drop_first() =~= s@.skip(i + 1));
            assert(t[0] == s@[i as int]);
        }
        if s.get_char(i) == sep {
            let piece = s.substring_char(start, i);
            pieces.push(piece);
            proof {
                assert(s@.subrange((i + 1) as int, (i + 1) as int) + r[0] =~= r[0]);
                assert(r.update(0, r[0]) =~= r);
                assert((seq![Seq::<char>::empty()] + r).update(0, x + (seq![Seq::<char>::empty()] + r)[0])
                    =~= seq![x] + r);
            }
            start = i + 1;
        } else {
            proof {
                assert(x + (seq![t[0]] + r[0]) =~= s@.subrange(start as int, (i + 1) as int) + r[0]);
                assert(r.update(0, seq![t[0]] + r[0]).update(0, x + (seq![t[0]] + r[0])) =~= r.update(
                    0,
                    s@.subrange(start as int, (i + 1) as int) + r[0],
                ));
            }
        }
        i = i + 1;
    }
    let last = s.substring_char(start, n);
    proof {
        assert(s@.skip(n as int) =~= Seq::<char>::empty());
        assert(last@ + Seq::<char>::empty() =~= last@);
    }
    pieces.push(last);
    proof {
        assert(pieces.deep_view() =~= pieces.deep_view().drop_last().push(last@));
    }
    pieces
}

/// The pieces of `s`, each ending with an occurrence of `pat` except perhaps
/// the last, as `str::split_inclusive` gives them: no empty piece at the end.
pub open spec fn split_inclusive(s: Seq<char>, pat: Seq<char>) -> Seq<Seq<char>>
    decreases s.len(),
{
    if s.len() == 0 {
        Seq::<Seq<char>>::empty()
    } else if pat.len() > 0 && pat.is_prefix_of(s) {
        seq![pat] + split_inclusive(s.skip(pat.len() as int), pat)
    } else {
        glue_front(seq![s[0]], split_inclusive(s.drop_first(), pat))
    }
}

/// `pieces` with `x` put in front of its first piece (or as the only piece,
/// when there is none and `x` is not empty).
pub open spec fn glue_front(x: Seq<char>, pieces: Seq<Seq<char>>) -> Seq<Seq<char>> {
    if pieces.len() == 0 {
        if x.len() == 0 {
            Seq::<Seq<char>>::empty()
        } else {
            seq![x]
        }
    } else {
        pieces.update(0, x + pieces[0])
    }
}

proof fn lemma_glue_front_twice(x: Seq<char>, y: Seq<char>, pieces: Seq<Seq<char>>)
    requires
        y.len() > 0,
    ensures
        glue_front(x, glue_front(y, pieces)) == glue_front(x + y, pieces),
{
    if pieces.len() == 0 {
        assert(seq![x + y].update(0, x + y) =~= seq![x + y]);
    } else {
        assert(x + (y + pieces[0]) =~= (x + y) + pieces[0]);
        assert(pieces.update(0, y + pieces[0]).update(0, x + (y + pieces[0])) =~= pieces.update(
            0,
            (x + y) + pieces[0],
        ));
    }
}

proof fn lemma_glue_front_empty(pieces: Seq<Seq<char>>)
    ensures
        glue_front(Seq::<char>::empty(), pieces) == pieces,
{
    if pieces.len() > 0 {
        assert(Seq::<char>::empty() + pieces[0] =~= pieces[0]);
        assert(pieces.update(0, pieces[0]) =~= pieces);
    } else {
        assert(pieces =~= Seq::<Seq<char>>::empty());
    }
}

/// The pieces of `s` up to and including each occurrence of `pat`.
pub fn split_inclusive_str<'a>(s: &'a str, pat: &str) -> (res: Vec<&'a str>)
    requires
        pat@.len() > 0,
    ensures
        res.deep_view() == split_inclusive(s@, pat@),
{
    let n = s.unicode_len();
    let m = pat.unicode_len();
    let mut pieces: Vec<&'a str> = Vec::new();
    let mut start: usize = 0;
    let mut i: usize = 0;
    proof {
        assert(s@.skip(0) =~= s@);
        lemma_glue_front_empty(split_inclusive(s@, pat@));
        assert(s@.subrange(0, 0) =~= Seq::<char>::empty());
        assert(pieces.deep_view() + split_inclusive(s@, pat@) =~= split_inclusive(s@, pat@));
    }
    while i < n
        invariant
            n == s@.len(),
            m == pat@.len(),
            m > 0,
            start <= i <= n,
            split_inclusive(s@, pat@) == pieces.deep_view() + glue_front(
                s@.subrange(start as int, i as int),
                split_inclusive(s@.skip(i as int), pat@),
            ),
        decreases n - i,
    {
        let ghost t = s@.skip(i as int);
        let ghost x = s@.subrange(start as int, i as int);
        if matches_at(s, i, pat) {
            let piece = s.substring_char(start, i + m);
            pieces.push(piece);
            proof {
                assert(t.subrange(0, m as int) =~= s@.subrange(i as int, i + m));
                assert(pat@.is_prefix_of(t));
                assert(t.skip(m as int) =~= s@.skip(i + m));
                let r = split_inclusive(s@.skip(i + m), pat@);
                assert(glue_front(x, seq![pat@] + r) =~= seq![x + pat@] + r);
                assert(x + pat@ =~= piece@);
                lemma_glue_front_empty(r);
                assert(s@.subrange((i + m) as int, (i + m) as int) =~= Seq::<char>::empty());
            }
            start = i + m;
            i = i + m;
        } else {
            proof {
                assert(!pat@.is_prefix_of(t)) by {
                    if pat@.is_prefix_of(t) {
                        assert(t.subrange(0, m as int) =~= s@.subrange(i as int, i + m));
                    }
                }
                assert(t.drop_first() =~= s@.skip(i + 1));
                lemma_glue_front_twice(x, seq![t[0]], split_inclusive(t.drop_first(), pat@));
                assert(x + seq![t[0]] =~= s@.subrange(start as int, i + 1));
            }
            i = i + 1;
        }
    }
    proof {
        assert(s@.skip(n as int) =~= Seq::<char>::empty());
    }
    if start < n {
        let last = s.substring_char(start, n);
        pieces.push(last);
    }
    assert(pieces.deep_view() =~= split_inclusive(s@, pat@));
    pieces
}

/// The words of `s`: its runs of characters that are not white space, in
/// order, as `str::split_whitespace` gives them.
pub open spec fn words(s: Seq<char>) -> Seq<Seq<char>>
    decreases s.len(),
{
    if s.len() == 0 {
        Seq::<Seq<char>>::empty()
    } else if is_white_space(s[0]) {
        words(s.drop_first())
    } else {
        let r = words(s.drop_first());
        if s.len() > 1 && !is_white_space(s[1]) {
            r.update(0, seq![s[0]] + r[0])
        } else {
            seq![seq![s[0]]] + r
        }
    }
}

/// The words of `x + t`, where `x` holds no white space.
pub open spec fn word_front(x: Seq<char>, t: Seq<char>) -> Seq<Seq<char>> {
    if x.len() == 0 {
        words(t)
    } else if t.len() > 0 && !is_white_space(t[0]) {
        let r = words(t);
        r.update(0, x + r[0])
    } else {
        seq![x] + words(t)
    }
}

proof fn lemma_words_start(t: Seq<char>)
    requires
        t.len() > 0,
        !is_white_space(t[0]),
    ensures
        words(t).len() > 0,
    decreases t.len(),
{
    if t.len() > 1 && !is_white_space(t[1]) {
        lemma_words_start(t.drop_first());
    }
}

proof fn lemma_word_front_step(x: Seq<char>, t: Seq<char>)
    requires
        t.len() > 0,
        !is_white_space(t[0]),
    ensures
        word_front(x, t) == word_front(x.push(t[0]), t.drop_first()),
{
    let c = t[0];
    let u = t.drop_first();
    assert(x.push(c) =~= x + seq![c]);
    if u.len() > 0 && !is_white_space(u[0]) {
        lemma_words_start(u);
        let r = words(u);
        assert(t.len() > 1 && t[1] == u[0]);
        if x.len() > 0 {
            assert(x + (seq![c] + r[0]) =~= x.push(c) + r[0]);
            assert(r.update(0, seq![c] + r[0]).update(0, x + (seq![c] + r[0])) =~= r.update(0, x.push(c) + r[0]));
        } else {
            assert(x.push(c) =~= seq![c]);
        }
    } else {
        let r = words(u);
        if x.len() > 0 {
            assert((seq![seq![c]] + r).update(0, x + seq![c]) =~= seq![x.push(c)] + r);
        } else {
            assert(x.push(c) =~= seq![c]);
        }
    }
}

/// The words of `s`, split at white space.
pub fn split_whitespace_str<'a>(s: &'a str) -> (res: Vec<&'a str>)
    ensures
        res.deep_view() == words(s@),
{
    let n = s.unicode_len();
    let mut pieces: Vec<&'a str> = Vec::new();
    let mut start: usize = 0;
    let mut in_word = false;
    let mut i: usize = 0;
    proof {
        assert(s@.skip(0) =~= s@);
        assert(pieces.deep_view() + words(s@) =~= words(s@));
    }
    while i < n
        invariant
            n == s@.len(),
            start <= i <= n,
            !in_word ==> start == i,
            in_word ==> start < i,
            words(s@) == pieces.deep_view() + word_front(
                s@.subrange(start as int, i as int),
                s@.skip(i as int),
            ),
        decreases n - i,
    {
        let ghost t = s@.skip(i as int);
        let ghost x = s@.subrange(start as int, i as int);
        proof {
            assert(t.drop_first() =~= s@.skip(i + 1));
            assert(t[0] == s@[i as int]);
        }
        let c = s.get_char(i);
        if white_space(c) {
            let ghost before = pieces.deep_view();
            assert(words(t) == words(t.drop_first()));
            if in_word {
                let piece = s.substring_char(start, i);
                pieces.push(piece);
                in_word = false;
                assert(pieces.deep_view() =~= before.push(x));
                assert(before + (seq![x] + words(t)) =~= before.push(x) + words(t));
            } else {
                assert(x =~= Seq::<char>::empty());
            }
            proof {
                assert(s@.subrange((i + 1) as int, (i + 1) as int) =~= Seq::<char>::empty());
            }
            start = i + 1;
        } else {
            proof {
                lemma_word_front_step(x, t);
                assert(x.push(t[0]) =~= s@.subrange(start as int, i + 1));
            }
            in_word = true;
        }
        i = i + 1;
    }
    proof {
        assert(s@.skip(n as int) =~= Seq::<char>::empty());
    }
    if in_word {
        let ghost before = pieces.deep_view();
        let last = s.substring_char(start, n);
        pieces.push(last);
        assert(pieces.deep_view() =~= before.push(last@));
        assert(seq![last@] + words(Seq::<char>::empty()) =~= seq![last@]);
    } else {
        assert(s@.subrange(start as int, n as int) =~= Seq::<char>::empty());
    }
    assert(pieces.deep_view() =~= words(s@));
    pieces
}

} // verus!
