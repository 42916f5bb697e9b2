use terminal3d::text::{chars_of, is_whitespace, parse_usize, split_whitespace};

fn chars(s: &str) -> Vec<char> {
    s.chars().collect()
}

fn words_of(s: &str) -> Vec<String> {
    split_whitespace(&chars_of(s)).iter().map(|w| w.iter().collect()).collect()
}

#[test]
fn chars_of_keeps_every_character() {
    assert_eq!(chars_of("añ→x"), vec!['a', 'ñ', '→', 'x']);
    assert_eq!(chars_of(""), Vec::<char>::new());
}

#[test]
fn whitespace_is_unicode_white_space() {
    for c in ['\t', '\n', '\u{b}', '\u{c}', '\r', ' ', '\u{85}', '\u{a0}', '\u{1680}', '\u{2000}', '\u{200a}', '\u{2028}', '\u{2029}', '\u{202f}', '\u{205f}', '\u{3000}'] {
        assert!(is_whitespace(c), "{:?}", c);
        assert!(c.is_whitespace());
    }
    for c in ['a', '0', '\u{200b}', '\u{1}', '#', '\u{feff}'] {
        assert!(!is_whitespace(c), "{:?}", c);
        assert_eq!(c.is_whitespace(), false);
    }
}

#[test]
fn split_whitespace_matches_std() {
    for s in ["", "   ", "v 1 2 3", "  f  1/2/3\t4//5 \r", "a\u{3000}b\u{a0}c", "x"] {
        let expected: Vec<String> = s.split_whitespace().map(|w| w.to_string()).collect();
        assert_eq!(words_of(s), expected);
    }
}

#[test]
fn parse_usize_accepts_plus_and_digits() {
    assert_eq!(parse_usize(&chars("0")), Some(0));
    assert_eq!(parse_usize(&chars("42")), Some(42));
    assert_eq!(parse_usize(&chars("+7")), Some(7));
    assert_eq!(parse_usize(&chars("007")), Some(7));
}

#[test]
fn parse_usize_rejects_the_rest() {
    for s in ["", "+", "-", "-1", "1a", " 1", "1.0", "++1", "١"] {
        assert_eq!(parse_usize(&chars(s)), None, "{:?}", s);
        assert!(s.parse::<usize>().is_err());
    }
}

#[test]
fn parse_usize_overflow() {
    let max = usize::MAX.to_string();
    assert_eq!(parse_usize(&chars(&max)), Some(usize::MAX));
    let over = format!("{}0", max);
    assert_eq!(parse_usize(&chars(&over)), None);
    let over_then_junk = format!("{}0x", max);
    assert_eq!(parse_usize(&chars(&over_then_junk)), None);
}
