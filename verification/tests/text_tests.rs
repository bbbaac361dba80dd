use russtly::text::{chars_of, parse_i64, parse_usize, trimmed};

fn v(s: &str) -> Vec<char> {
    s.chars().collect()
}

#[test]
fn chars_of_keeps_order() {
    assert_eq!(chars_of("héllo"), vec!['h', 'é', 'l', 'l', 'o']);
}

#[test]
fn trim_matches_std() {
    for s in ["", "  ", " a ", "\t\nx y\r\n", "\u{a0}z\u{3000}", "\u{2009}a b\u{2028}", "ab", "\u{200b}x"] {
        assert_eq!(trimmed(&v(s)), s.trim(), "input {:?}", s);
    }
}

#[test]
fn parse_i64_matches_std() {
    for s in [
        "0", "42", "-42", "+7", "-", "+", "", " 1", "1 ", "007", "9223372036854775807",
        "9223372036854775808", "-9223372036854775808", "-9223372036854775809", "1a", "--1",
        "+-1", "99999999999999999999999",
    ] {
        assert_eq!(parse_i64(&v(s)), s.parse::<i64>().ok(), "input {:?}", s);
    }
}

#[test]
fn parse_usize_matches_std() {
    for s in ["0", "200", "+5", "-0", "-5", "", "18446744073709551615", "18446744073709551616", "x"] {
        assert_eq!(parse_usize(&v(s)), s.parse::<usize>().ok(), "input {:?}", s);
    }
}
