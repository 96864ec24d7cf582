use openclaw_agent::text::{
    chars_of, decimal_string, is_whitespace_char, parse_comma_list, parse_u64, trim_string,
};

#[test]
fn trim_removes_unicode_white_space() {
    assert_eq!(trim_string("  echo \t\n"), "echo");
    assert_eq!(trim_string("\u{3000}ls\u{a0}"), "ls");
    assert_eq!(trim_string("   "), "");
    assert_eq!(trim_string(""), "");
    assert_eq!(trim_string("a b"), "a b");
}

#[test]
fn whitespace_matches_std() {
    for u in 0u32..0x3100 {
        if let Some(c) = char::from_u32(u) {
            assert_eq!(is_whitespace_char(c), c.is_whitespace(), "U+{:04X}", u);
        }
    }
}

#[test]
fn comma_list_trims_and_drops_empty_items() {
    assert_eq!(parse_comma_list(" ls , pwd,,date ,"), vec!["ls", "pwd", "date"]);
    assert_eq!(parse_comma_list(""), Vec::<String>::new());
    assert_eq!(parse_comma_list(" , ,"), Vec::<String>::new());
    assert_eq!(parse_comma_list("a"), vec!["a"]);
}

#[test]
fn parse_u64_matches_std() {
    let cases = [
        "0", "42", "+7", "", "+", "-1", "-0", " 1", "1 ", "12a", "18446744073709551615",
        "18446744073709551616", "99999999999999999999", "007", "+-1", "١٢",
    ];
    for c in cases {
        assert_eq!(parse_u64(c), c.parse::<u64>().ok(), "{:?}", c);
    }
}

#[test]
fn decimal_string_matches_to_string() {
    for n in [0u64, 9, 10, 99, 100, 10001, u64::MAX] {
        assert_eq!(decimal_string(n), n.to_string());
    }
}

#[test]
fn chars_of_keeps_every_character() {
    assert_eq!(chars_of("aé☃"), vec!['a', 'é', '☃']);
}
