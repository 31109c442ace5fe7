use pong_evo::text::{
    chars_of, float_literal, is_whitespace, parse_u32, parse_usize, split_lines, split_words,
};

fn v(s: &str) -> Vec<char> {
    chars_of(s)
}

fn strs(x: Vec<Vec<char>>) -> Vec<String> {
    x.into_iter().map(|w| w.into_iter().collect()).collect()
}

#[test]
fn words_match_split_whitespace() {
    for s in ["", "  ", "a", " a  b\tc\n", "x\u{a0}y\u{3000}z", "\u{2028}q"] {
        let expected: Vec<String> = s.split_whitespace().map(|w| w.to_string()).collect();
        assert_eq!(strs(split_words(&v(s))), expected, "{s:?}");
    }
}

#[test]
fn lines_match_bufread_lines() {
    assert_eq!(strs(split_lines(&v(""))), Vec::<String>::new());
    assert_eq!(strs(split_lines(&v("a"))), vec!["a"]);
    assert_eq!(strs(split_lines(&v("a\n"))), vec!["a"]);
    assert_eq!(strs(split_lines(&v("\n"))), vec![""]);
    assert_eq!(strs(split_lines(&v("a\n\nb"))), vec!["a", "", "b"]);
}

#[test]
fn whitespace_is_unicode_white_space() {
    for c in ['\t', '\n', '\u{b}', '\u{c}', '\r', ' ', '\u{85}', '\u{a0}', '\u{1680}', '\u{2000}', '\u{200a}', '\u{2028}', '\u{2029}', '\u{202f}', '\u{205f}', '\u{3000}'] {
        assert!(is_whitespace(c));
        assert!(c.is_whitespace());
    }
    for c in ['a', '0', '\u{200b}', '\u{180e}', '_'] {
        assert_eq!(is_whitespace(c), c.is_whitespace());
    }
}

#[test]
fn unsigned_parsing_matches_std() {
    for s in ["0", "42", "+7", "007", "", "+", "-1", "4294967295", "4294967296", "1a", " 1"] {
        assert_eq!(parse_u32(&v(s)), s.parse::<u32>().ok(), "{s:?}");
        assert_eq!(parse_usize(&v(s)), s.parse::<usize>().ok(), "{s:?}");
    }
    let big = "18446744073709551615";
    assert_eq!(parse_usize(&v(big)), big.parse::<usize>().ok());
    assert_eq!(parse_usize(&v("18446744073709551616")), None);
}

#[test]
fn float_literals_match_std() {
    for s in [
        "0", "1.5", "-2", "+3.", ".5", "1e10", "1E-5", "2e+3", "inf", "-INF", "Infinity", "nan",
        "NaN", "1e", "e1", ".", "", "+", "-", "1.2.3", "1e1.5", "infin", "0x1", "1 ", "١",
    ] {
        assert_eq!(float_literal(&v(s)), s.parse::<f32>().is_ok(), "{s:?}");
    }
}
