use zonalrust::number::{float_text, parse_usize};
use zonalrust::text::{
    decimal_string, split_inclusive_str, split_on_char, split_whitespace_str, str_eq,
    strip_prefix_str, strip_suffix_str, trim_str,
};

const SAMPLES: &[&str] = &[
    "", " ", "a", " a ", "\t\n a b\u{3000}c \u{85}", "a,b,,c,", ",", "(1 1), (2 2), (3 3)", "), ",
    "x), ), y", "  POINT (1 2)  ", "\u{a0}\u{2009}x\u{2028}", "ab", "éé, ü",
];

#[test]
fn text_functions_agree_with_std() {
    for s in SAMPLES {
        assert_eq!(trim_str(s), s.trim());
        assert_eq!(split_whitespace_str(s), s.split_whitespace().collect::<Vec<_>>());
        assert_eq!(split_on_char(s, ','), s.split(',').collect::<Vec<_>>());
        assert_eq!(split_inclusive_str(s, "), "), s.split_inclusive("), ").collect::<Vec<_>>());
        for p in ["", "(", ")", "a", "  "] {
            assert_eq!(strip_prefix_str(s, p), s.strip_prefix(p));
            assert_eq!(strip_suffix_str(s, p), s.strip_suffix(p));
        }
        for t in SAMPLES {
            assert_eq!(str_eq(s, t), s == t);
        }
    }
}

#[test]
fn decimal_agrees_with_std() {
    for n in [0usize, 1, 9, 10, 11, 99, 100, 12345, usize::MAX] {
        assert_eq!(decimal_string(n), n.to_string());
    }
}

#[test]
fn usize_text_agrees_with_std() {
    for s in [
        "", "+", "-", "0", "+0", "-0", "007", "42", "+42", "4 2", " 4", "1.0", "18446744073709551615",
        "18446744073709551616", "99999999999999999999", "++1", "1e3",
    ] {
        assert_eq!(parse_usize(s), s.parse::<usize>().ok(), "{:?}", s);
    }
}

#[test]
fn float_text_agrees_with_std() {
    for s in [
        "", "+", "-", ".", "0", "-0", "+1", "1.", ".1", "1.5", "-.5", "1e", "1e5", "1E5", "1e+5", "1e-5",
        "1e+", "e5", ".e5", "1.e5", ".5e5", "1.5.5", "inf", "INF", "-Inf", "infinity", "+InFiNiTy", "infin",
        "nan", "NaN", "-nan", "nAn", "naN ", " 1", "1 ", "0x10", "1_0", "1e5.5", "١", "1e99999", "--1",
        "+-1", "i", "n",
    ] {
        assert_eq!(float_text(s), s.parse::<f64>().is_ok(), "{:?}", s);
    }
}
