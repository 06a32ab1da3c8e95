use honor::text::{decimal_text, parse_u16, split_text, text_contains, text_eq, text_lt,
    text_starts_with};

#[test]
fn text_eq_compares_whole_texts() {
    assert!(text_eq("chat", "chat"));
    assert!(!text_eq("chat", "chat "));
    assert!(!text_eq("dnd", "away"));
    assert!(text_eq("", ""));
}

#[test]
fn text_contains_finds_runs() {
    assert!(text_contains("Ranked Clash", "Clash"));
    assert!(text_contains("Tutorial 1", "Tutorial"));
    assert!(!text_contains("Clas", "Clash"));
    assert!(text_contains("anything", ""));
    assert!(!text_contains("", "a"));
}

#[test]
fn text_starts_with_checks_prefix() {
    assert!(text_starts_with("TUTORIAL_MODULE_1", "TUTORIAL"));
    assert!(!text_starts_with("URF", "TUTORIAL"));
    assert!(text_starts_with("x", ""));
}

#[test]
fn text_lt_orders_by_bytes() {
    assert!(text_lt("ARAM", "Blind Pick"));
    assert!(text_lt("Z", "a"));
    assert!(text_lt("", "a"));
    assert!(!text_lt("a", "a"));
    assert!(text_lt("ab", "abc"));
    assert!(!text_lt("abc", "ab"));
    assert!(text_lt("é", "ê"));
}

#[test]
fn decimal_text_writes_numbers() {
    assert_eq!(decimal_text(0), "0");
    assert_eq!(decimal_text(7), "7");
    assert_eq!(decimal_text(10), "10");
    assert_eq!(decimal_text(2999), "2999");
    assert_eq!(decimal_text(65535), "65535");
}

#[test]
fn parse_u16_accepts_what_std_accepts() {
    for text in ["0", "1", "+5", "00012", "65535", "", "+", "-1", "65536", "12a", "99999a", " 1"] {
        assert_eq!(parse_u16(text), text.parse::<u16>().ok(), "{}", text);
    }
}

#[test]
fn parse_u16_reads_back_decimal_text() {
    for n in [0u16, 9, 10, 443, 2999, 65535] {
        assert_eq!(parse_u16(&decimal_text(n)), Some(n));
    }
}

#[test]
fn split_text_matches_str_split() {
    for text in ["a::b", "", ":", "LeagueClient:1:2:pw:https", "no separator"] {
        let ours = split_text(text, ':');
        let std_fields: Vec<String> = text.split(':').map(|f| f.to_string()).collect();
        assert_eq!(ours, std_fields, "{}", text);
    }
}

#[test]
fn chars_of_lists_characters() {
    assert_eq!(honor::text::chars_of("aé:"), vec!['a', 'é', ':']);
    assert!(honor::text::chars_of("").is_empty());
}
