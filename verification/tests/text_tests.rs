use actix_inertia::text::{
    escape_attribute, from_chars, key_listed, names_match, parse_key_list, replace_token,
    same_text, to_chars, whitespace,
};

fn strings(items: &[&str]) -> Vec<String> {
    items.iter().map(|item| item.to_string()).collect()
}

#[test]
fn key_list_is_cut_at_commas() {
    assert_eq!(parse_key_list("a,c"), strings(&["a", "c"]));
    assert_eq!(parse_key_list("a,b,c"), strings(&["a", "b", "c"]));
    assert_eq!(parse_key_list("foo"), strings(&["foo"]));
}

#[test]
fn key_list_trims_each_key() {
    assert_eq!(parse_key_list(" a , c "), strings(&["a", "c"]));
    assert_eq!(parse_key_list("\ta\t,\u{a0}b\u{3000},\r\nc\n"), strings(&["a", "b", "c"]));
    assert_eq!(parse_key_list("user name , x"), strings(&["user name", "x"]));
}

#[test]
fn key_list_ignores_empty_entries() {
    assert_eq!(parse_key_list(""), strings(&[]));
    assert_eq!(parse_key_list("   "), strings(&[]));
    assert_eq!(parse_key_list(",,"), strings(&[]));
    assert_eq!(parse_key_list("a,,b, ,c,"), strings(&["a", "b", "c"]));
    assert_eq!(parse_key_list(",a"), strings(&["a"]));
}

#[test]
fn key_list_keeps_repeated_keys_and_their_order() {
    assert_eq!(parse_key_list("c,a,c"), strings(&["c", "a", "c"]));
}

#[test]
fn key_list_agrees_with_split_trim_filter() {
    for text in ["a, b ,c", " , ,", "x", "é , ü,\u{2003}z\u{2003}", "a,b,", ",", "a b,c\td"] {
        let expected: Vec<String> = text
            .split(',')
            .map(|part| part.trim())
            .filter(|part| !part.is_empty())
            .map(|part| part.to_string())
            .collect();
        assert_eq!(parse_key_list(text), expected);
    }
}

#[test]
fn whitespace_is_the_unicode_property() {
    for code in 0u32..0x11000 {
        if let Some(c) = char::from_u32(code) {
            assert_eq!(whitespace(c), c.is_whitespace(), "U+{:04X}", code);
        }
    }
}

#[test]
fn key_listed_finds_exact_keys_only() {
    let keys = strings(&["a", "bc"]);
    assert!(key_listed(&keys, &"a".to_string()));
    assert!(key_listed(&keys, &"bc".to_string()));
    assert!(!key_listed(&keys, &"b".to_string()));
    assert!(!key_listed(&keys, &"A".to_string()));
    assert!(!key_listed(&Vec::new(), &"a".to_string()));
}

#[test]
fn header_names_match_without_regard_to_ascii_case() {
    assert!(names_match("X-Inertia", "x-inertia"));
    assert!(names_match("X-INERTIA", "x-Inertia"));
    assert!(names_match("", ""));
    assert!(!names_match("X-Inertia", "X-Inertia-Version"));
    assert!(!names_match("X-Inertia", "X_Inertia"));
    assert!(!names_match("é", "É"));
    assert!(!names_match("@", "`"));
    assert!(!names_match("[", "{"));
}

#[test]
fn same_text_is_equality() {
    assert!(same_text("GET", "GET"));
    assert!(!same_text("GET", "get"));
    assert!(!same_text("GET", "GE"));
    assert!(same_text("", ""));
}

#[test]
fn characters_round_trip() {
    let chars = to_chars("héllo");
    assert_eq!(chars, vec!['h', 'é', 'l', 'l', 'o']);
    assert_eq!(from_chars(&chars, 0, 5), "héllo");
    assert_eq!(from_chars(&chars, 1, 3), "él");
    assert_eq!(from_chars(&chars, 2, 2), "");
}

#[test]
fn quotes_are_escaped() {
    assert_eq!(escape_attribute("{\"a\":\"b\"}"), "{&quot;a&quot;:&quot;b&quot;}");
    assert_eq!(escape_attribute("no quotes & <tags>"), "no quotes & <tags>");
    assert_eq!(escape_attribute("\"\""), "&quot;&quot;");
    assert_eq!(escape_attribute(""), "");
    let text = "a\"b'c\"é";
    assert_eq!(escape_attribute(text), text.replace('"', "&quot;"));
}

#[test]
fn every_occurrence_of_the_token_is_replaced() {
    assert_eq!(replace_token("<p>{{X}}</p>", "{{X}}", "hi"), "<p>hi</p>");
    assert_eq!(replace_token("{{X}}{{X}}-{{X}}", "{{X}}", "ab"), "abab-ab");
    assert_eq!(replace_token("nothing here", "{{X}}", "ab"), "nothing here");
    assert_eq!(replace_token("{{X}", "{{X}}", "ab"), "{{X}");
    assert_eq!(replace_token("", "{{X}}", "ab"), "");
    assert_eq!(replace_token("aaa", "aa", "b"), "ba");
    assert_eq!(replace_token("abc", "", "x"), "abc");
    assert_eq!(replace_token("{{X}}", "{{X}}", "{{X}}{{X}}"), "{{X}}{{X}}");
}

#[test]
fn replacing_agrees_with_the_standard_library() {
    for (text, token, with) in [
        ("abcabcabc", "bc", "-"),
        ("aaaa", "aa", "a"),
        ("xyz", "xyz", ""),
        ("é{{D}}ü", "{{D}}", "ö"),
        ("{{{{D}}}}", "{{D}}", "1"),
    ] {
        assert_eq!(replace_token(text, token, with), text.replace(token, with));
    }
}
