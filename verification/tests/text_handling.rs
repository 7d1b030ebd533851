use giggletech_router::text::{
    avatar_parameter, is_whitespace, host_port, parameter_name, parse_u64, split_whitespace, trim_start_matches,
};

#[test]
fn split_whitespace_yields_words_in_order() {
    let words = split_whitespace("  192.168.1.10 \t 192.168.1.11\nfoo ");
    assert_eq!(words, vec!["192.168.1.10".to_string(), "192.168.1.11".to_string(), "foo".to_string()]);
}

#[test]
fn split_whitespace_of_blank_text_is_empty() {
    assert!(split_whitespace("").is_empty());
    assert!(split_whitespace(" \t\n ").is_empty());
}

#[test]
fn split_whitespace_handles_unicode_whitespace() {
    let words = split_whitespace("a\u{3000}b\u{a0}c");
    assert_eq!(words, vec!["a".to_string(), "b".to_string(), "c".to_string()]);
}

#[test]
fn parse_u64_accepts_digits_and_plus() {
    assert_eq!(parse_u64("42"), Some(42));
    assert_eq!(parse_u64("+7"), Some(7));
    assert_eq!(parse_u64("0007"), Some(7));
    assert_eq!(parse_u64("18446744073709551615"), Some(u64::MAX));
}

#[test]
fn parse_u64_rejects_what_std_rejects() {
    for text in ["", "+", "-1", "12a", " 1", "1 ", "18446744073709551616", "99999999999999999999", "++1"] {
        assert_eq!(parse_u64(text), None, "{text}");
        assert_eq!(parse_u64(text), text.parse::<u64>().ok(), "{text}");
    }
}

#[test]
fn avatar_parameter_prefixes_the_name() {
    assert_eq!(avatar_parameter("proximity_01"), "/avatar/parameters/proximity_01");
}

#[test]
fn parameter_name_trims_every_leading_prefix() {
    assert_eq!(parameter_name("/avatar/parameters//avatar/parameters/max_speed"), "max_speed");
    assert_eq!(parameter_name("/avatar/parameters/headpat"), "headpat");
    assert_eq!(parameter_name("headpat"), "headpat");
}

#[test]
fn parameter_name_undoes_avatar_parameter() {
    for name in ["proximity_01", "max_speed", "", "/motor"] {
        assert_eq!(parameter_name(&avatar_parameter(name)), name);
    }
}

#[test]
fn trim_start_matches_agrees_with_std() {
    for (s, p) in [("ababc", "ab"), ("abc", ""), ("", "x"), ("xxx", "xx"), ("aaa", "a")] {
        assert_eq!(trim_start_matches(s, p), s.trim_start_matches(p), "{s} {p}");
    }
}

#[test]
fn host_port_joins_with_colon() {
    assert_eq!(host_port("192.168.1.10", "8888"), "192.168.1.10:8888");
}

#[test]
fn is_whitespace_agrees_with_std_on_every_char() {
    for u in 0u32..=0x10FFFF {
        if let Some(c) = char::from_u32(u) {
            assert_eq!(is_whitespace(c), c.is_whitespace(), "{u:#x}");
        }
    }
}

#[test]
fn split_whitespace_agrees_with_std() {
    for s in ["a b", "\u{2028}x\u{85}y\u{3000}", "\t\tz", "no-space", "a\u{200b}b"] {
        let expected: Vec<String> = s.split_whitespace().map(String::from).collect();
        assert_eq!(split_whitespace(s), expected, "{s:?}");
    }
}
