use space_travel::text::{is_white_space_char, parse_isize_at, parse_u32_at, tokenize, Token};

fn chars(s: &str) -> Vec<char> {
    s.chars().collect()
}

fn isize_of(s: &str) -> Option<isize> {
    let c = chars(s);
    parse_isize_at(&c, 0, c.len())
}

fn u32_of(s: &str) -> Option<u32> {
    let c = chars(s);
    parse_u32_at(&c, 0, c.len())
}

#[test]
fn whitespace_matches_std() {
    for code in 0u32..0x3100 {
        if let Some(c) = char::from_u32(code) {
            assert_eq!(is_white_space_char(c), c.is_whitespace(), "code {code:#x}");
        }
    }
}

#[test]
fn tokens_carry_positions_and_lines() {
    let t = chars("v 1\t2\u{A0}3\n\n  f 1 2 3\r\n# c");
    let toks = tokenize(&t);
    let expect = vec![
        Token { line: 0, start: 0, end: 1 },
        Token { line: 0, start: 2, end: 3 },
        Token { line: 0, start: 4, end: 5 },
        Token { line: 0, start: 6, end: 7 },
        Token { line: 2, start: 11, end: 12 },
        Token { line: 2, start: 13, end: 14 },
        Token { line: 2, start: 15, end: 16 },
        Token { line: 2, start: 17, end: 18 },
        Token { line: 3, start: 20, end: 21 },
        Token { line: 3, start: 22, end: 23 },
    ];
    assert_eq!(toks, expect);
}

#[test]
fn tokens_match_split_whitespace() {
    let s = "  alpha  beta\tgamma\n delta\u{2003}epsilon ";
    let t = chars(s);
    let words: Vec<String> = tokenize(&t)
        .iter()
        .map(|tk| t[tk.start..tk.end].iter().collect())
        .collect();
    let expect: Vec<String> = s.split_whitespace().map(|w| w.to_string()).collect();
    assert_eq!(words, expect);
}

#[test]
fn tokenize_blank_text_is_empty() {
    assert!(tokenize(&chars("")).is_empty());
    assert!(tokenize(&chars(" \n\t \r\n")).is_empty());
}

#[test]
fn isize_parsing_follows_std() {
    for s in [
        "0", "7", "+5", "-7", "-0", "+0", "007", "-", "+", "", "1a", "--1", "+-1", " 1", "1 ",
        "9223372036854775807", "9223372036854775808", "-9223372036854775808",
        "-9223372036854775809", "123456789012345678901234567890",
    ] {
        assert_eq!(isize_of(s), s.parse::<isize>().ok(), "input {s:?}");
    }
}

#[test]
fn isize_parsing_reads_values() {
    assert_eq!(isize_of("-12"), Some(-12));
    assert_eq!(isize_of("+34"), Some(34));
    assert_eq!(isize_of("x"), None);
}

#[test]
fn u32_parsing_follows_std() {
    for s in ["0", "1", "+7", "-1", "-0", "4294967295", "4294967296", "", "+", "12x", "٣"] {
        assert_eq!(u32_of(s), s.parse::<u32>().ok(), "input {s:?}");
    }
}

#[test]
fn parsing_reads_only_the_given_range() {
    let t = chars("ab-42cd");
    assert_eq!(parse_isize_at(&t, 2, 5), Some(-42));
    assert_eq!(parse_u32_at(&t, 3, 5), Some(42));
    assert_eq!(parse_u32_at(&t, 2, 5), None);
}
