use vstd::prelude::*;

verus! {

/// An ASCII decimal digit.
pub open spec fn is_digit(c: char) -> bool {
    '0' <= c && c <= '9'
}

/// Every character of `s` is a decimal digit.
pub open spec fn all_digits(s: Seq<char>) -> bool {
    forall|i: int| 0 <= i < s.len() ==> is_digit(#[trigger] s[i])
}

/// `Digit+ | Digit+ '.' Digit* | Digit* '.' Digit+`: digits with at most one
/// decimal point, and at least one digit.
pub open spec fn is_mantissa(s: Seq<char>) -> bool {
    &&& forall|i: int| 0 <= i < s.len() ==> is_digit(#[trigger] s[i]) || s[i] == '.'
    &&& forall|i: int, j: int| 0 <= i < s.len() && 0 <= j < s.len() && #[trigger] s[i] == '.' && #[trigger] s[j] == '.' ==> i == j
    &&& exists|i: int| 0 <= i < s.len() && is_digit(#[trigger] s[i])
}

/// `('e' | 'E') Sign? Digit+`.
pub open spec fn is_exponent(s: Seq<char>) -> bool {
    &&& s.len() >= 2
    &&& s[0] == 'e' || s[0] == 'E'
    &&& {
        let digits = if s[1] == '+' || s[1] == '-' { s.skip(2) } else { s.skip(1) };
        digits.len() > 0 && all_digits(digits)
    }
}

/// `Mantissa Exponent?`.
pub open spec fn is_number(s: Seq<char>) -> bool {
    ||| is_mantissa(s)
    ||| exists|k: int| 0 <= k < s.len() && is_mantissa(s.take(k)) && #[trigger] is_exponent(s.skip(k))
}

/// `s` equals `word`, a lower-case ASCII word, when ASCII letters are compared
/// without regard to case.
pub open spec fn equals_ignoring_case(s: Seq<char>, word: Seq<char>) -> bool {
    &&& s.len() == word.len()
    &&& forall|i: int| 0 <= i < s.len() ==> #[trigger] s[i] == word[i] || ('a' <= word[i] && word[i] <= 'z' && s[i] as int + 32 == word[i] as int)
}

/// `s` without a leading sign.
pub open spec fn unsigned_part(s: Seq<char>) -> Seq<char> {
    if s.len() > 0 && (s[0] == '+' || s[0] == '-') {
        s.drop_first()
    } else {
        s
    }
}

/// The text that the standard library reads as an `f64`, by the grammar of its
/// documentation: `Sign? ('inf' | 'infinity' | 'nan' | Number)`, where the
/// words and the exponent mark may be written in any case, and no white space
/// is allowed.
pub open spec fn is_float_text(s: Seq<char>) -> bool {
    let body = unsigned_part(s);
    ||| is_number(body)
    ||| equals_ignoring_case(body, "inf"@)
    ||| equals_ignoring_case(body, "infinity"@)
    ||| equals_ignoring_case(body, "nan"@)
}

fn digit(c: char) -> (res: bool)
    ensures
        res == is_digit(c),
{
    '0' <= c && c <= '9'
}

fn mantissa(s: &str) -> (res: bool)
    ensures
        res == is_mantissa(s@),
{
    let n = s.unicode_len();
    let mut dot: Option<usize> = None;
    let mut has_digit = false;
    let mut i: usize = 0;
    while i < n
        invariant
            n == s@.len(),
            i <= n,
            forall|k: int| 0 <= k < i ==> is_digit(#[trigger] s@[k]) || s@[k] == '.',
            match dot {
                None => forall|k: int| 0 <= k < i ==> s@[k] != '.',
                Some(d) => d < i && s@[d as int] == '.' && forall|k: int| 0 <= k < i && k != d ==> s@[k] != '.',
            },
            has_digit <==> exists|k: int| 0 <= k < i && is_digit(#[trigger] s@[k]),
        decreases n - i,
    {
        let c = s.get_char(i);
        if digit(c) {
            has_digit = true;
        } else if c == '.' {
            if dot.is_some() {
                assert(s@[dot.unwrap() as int] == '.' && s@[i as int] == '.');
                return false;
            }
            dot = Some(i);
        } else {
            assert(!(is_digit(s@[i as int]) || s@[i as int] == '.'));
            return false;
        }
        i = i + 1;
    }
    has_digit
}

fn exponent(s: &str) -> (res: bool)
    ensures
        res == is_exponent(s@),
{
    let n = s.unicode_len();
    if n < 2 {
        return false;
    }
    let c0 = s.get_char(0);
    if c0 != 'e' && c0 != 'E' {
        return false;
    }
    let c1 = s.get_char(1);
    let start: usize = if c1 == '+' || c1 == '-' { 2 } else { 1 };
    if start >= n {
        assert(s@[1] == '+' || s@[1] == '-');
        assert(s@.skip(2).len() == 0);
        return false;
    }
    let mut i: usize = start;
    while i < n
        invariant
            n == s@.len(),
            start <= i <= n,
            n >= 2,
            s@[0] == 'e' || s@[0] == 'E',
            start == (if s@[1] == '+' || s@[1] == '-' { 2int } else { 1int }),
            forall|k: int| start <= k < i ==> is_digit(#[trigger] s@[k]),
        decreases n - i,
    {
        if !digit(s.get_char(i)) {
            assert(s@.skip(start as int)[i - start] == s@[i as int]);
            return false;
        }
        i = i + 1;
    }
    assert forall|k: int| 0 <= k < s@.skip(start as int).len() implies is_digit(#[trigger] s@.skip(start as int)[k]) by {
        assert(s@.skip(start as int)[k] == s@[start + k]);
    }
    true
}

fn number(s: &str) -> (res: bool)
    ensures
        res == is_number(s@),
{
    let n = s.unicode_len();
    let mut k: usize = 0;
    while k < n && s.get_char(k) != 'e' && s.get_char(k) != 'E'
        invariant
            n == s@.len(),
            k <= n,
            forall|q: int| 0 <= q < k ==> s@[q] != 'e' && s@[q] != 'E',
        decreases n - k,
    {
        k = k + 1;
    }
    if k == n {
        let r = mantissa(s);
        assert forall|q: int| 0 <= q < s@.len() implies !is_exponent(#[trigger] s@.skip(q)) by {
            assert(s@.skip(q)[0] == s@[q]);
        }
        r
    } else {
        let head = s.substring_char(0, k);
        let tail = s.substring_char(k, n);
        assert(head@ =~= s@.take(k as int));
        assert(tail@ =~= s@.skip(k as int));
        let m = mantissa(head);
        let e = exponent(tail);
        assert(!is_mantissa(s@)) by {
            assert(!is_digit(s@[k as int]) && s@[k as int] != '.');
        }
        assert forall|q: int| 0 <= q < s@.len() && q != k && is_mantissa(#[trigger] s@.take(q)) implies !is_exponent(s@.skip(q)) by {
            assert(s@.skip(q)[0] == s@[q]);
            if q > k {
                assert(s@.take(q)[k as int] == s@[k as int]);
            }
        }
        m && e
    }
}

fn equal_ignoring_case(s: &str, word: &str) -> (res: bool)
    ensures
        res == equals_ignoring_case(s@, word@),
{
    let n = s.unicode_len();
    if n != word.unicode_len() {
        return false;
    }
    let mut i: usize = 0;
    while i < n
        invariant
            n == s@.len(),
            n == word@.len(),
            i <= n,
            forall|k: int| 0 <= k < i ==> #[trigger] s@[k] == word@[k] || ('a' <= word@[k] && word@[k] <= 'z' && s@[k] as int + 32 == word@[k] as int),
        decreases n - i,
    {
        let c = s.get_char(i);
        let w = word.get_char(i);
        if !(c == w || ('a' <= w && w <= 'z' && (c as u32) + 32 == w as u32)) {
            return false;
        }
        i = i + 1;
    }
    true
}

/// Whether `s` is text that parses as an `f64`.
pub fn float_text(s: &str) -> (res: bool)
    ensures
        res == is_float_text(s@),
{
    let n = s.unicode_len();
    let signed = n > 0 && (s.get_char(0) == '+' || s.get_char(0) == '-');
    let body = if signed { s.substring_char(1, n) } else { s };
    assert(body@ =~= unsigned_part(s@));
    number(body) || equal_ignoring_case(body, "inf") || equal_ignoring_case(body, "infinity")
        || equal_ignoring_case(body, "nan")
}

/// The number that the decimal digits `s` write.
pub open spec fn digits_value(s: Seq<char>) -> nat
    decreases s.len(),
{
    if s.len() == 0 {
        0
    } else {
        digits_value(s.drop_last()) * 10 + (s.last() as nat - '0' as nat) as nat
    }
}

/// What the standard library reads as a `usize`: an optional `+`, then one or
/// more decimal digits, whose value fits in a `usize`.
pub open spec fn usize_text_value(s: Seq<char>) -> Option<nat> {
    let digits = if s.len() > 0 && s[0] == '+' { s.drop_first() } else { s };
    if digits.len() > 0 && all_digits(digits) && digits_value(digits) <= usize::MAX {
        Some(digits_value(digits))
    } else {
        None
    }
}

proof fn lemma_digits_value_grows(s: Seq<char>, k: int)
    requires
        0 <= k <= s.len(),
        all_digits(s),
    ensures
        digits_value(s.take(k)) <= digits_value(s),
    decreases s.len() - k,
{
    if k < s.len() {
        lemma_digits_value_grows(s, k + 1);
        assert(s.take(k + 1).drop_last() =~= s.take(k));
        assert(is_digit(s[k]));
    } else {
        assert(s.take(k) =~= s);
    }
}

/// Reads `s` as a `usize`, as `str::parse::<usize>` does.
pub fn parse_usize(s: &str) -> (res: Option<usize>)
    ensures
        match res {
            Some(v) => usize_text_value(s@) == Some(v as nat),
            None => usize_text_value(s@) is None,
        },
{
    let n = s.unicode_len();
    let digits = if n > 0 && s.get_char(0) == '+' { s.substring_char(1, n) } else { s };
    let ghost d = if s@.len() > 0 && s@[0] == '+' { s@.drop_first() } else { s@ };
    assert(digits@ =~= d);
    let m = digits.unicode_len();
    if m == 0 {
        return None;
    }
    let mut value: usize = 0;
    let mut i: usize = 0;
    while i < m
        invariant
            m == digits@.len(),
            digits@ == d,
            d == (if s@.len() > 0 && s@[0] == '+' { s@.drop_first() } else { s@ }),
            d.len() > 0,
            i <= m,
            all_digits(d.take(i as int)),
            value as nat == digits_value(d.take(i as int)),
        decreases m - i,
    {
        let c = digits.get_char(i);
        assert(d.take(i + 1).drop_last() =~= d.take(i as int));
        if !digit(c) {
            assert(!is_digit(d[i as int]));
            return None;
        }
        let dv = (c as u32 - '0' as u32) as usize;
        let next = match value.checked_mul(10) {
            Some(t) => t.checked_add(dv),
            None => None,
        };
        match next {
            Some(v) => {
                value = v;
            },
            None => {
                proof {
                    assert(all_digits(d.take(i + 1)));
                    if all_digits(d) {
                        lemma_digits_value_grows(d, i + 1);
                    }
                }
                return None;
            },
        }
        i = i + 1;
    }
    assert(d.take(m as int) =~= d);
    Some(value)
}

} // verus!
