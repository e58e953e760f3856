use delay_mirror::digest::hex_text;
use delay_mirror::json::Json;
use delay_mirror::names::NameMap;
use delay_mirror::text;

#[test]
fn splitting_keeps_empty_pieces() {
    assert_eq!(text::split_text("a//b", '/'), ["a", "", "b"]);
    assert_eq!(text::split_text("", '/'), [""]);
    assert_eq!(text::split_text("/", '/'), ["", ""]);
}

#[test]
fn joining_the_pieces_gives_the_text_back() {
    for s in ["", "a", "/a/b/", "npm/lodash/4.17.21", "//"] {
        let parts = text::split_text(s, '/');
        assert_eq!(text::join_all(&parts, "/"), s);
    }
}

#[test]
fn path_segments_drop_empty_pieces() {
    assert_eq!(text::path_segments("/npm//lodash/"), ["npm", "lodash"]);
    assert!(text::path_segments("///").is_empty());
}

#[test]
fn joining_a_range_of_pieces() {
    let parts = text::split_text("a/b/c/d", '/');
    assert_eq!(text::join_range(&parts, 1, 3, "+"), "b+c");
    assert_eq!(text::join_range(&parts, 2, 2, "+"), "");
}

#[test]
fn trimming_removes_every_occurrence_at_the_end() {
    assert_eq!(text::trim_end_char("a///", '/'), "a");
    assert_eq!(text::trim_start_char("//a/", '/'), "a/");
    assert_eq!(text::trim_end_str("v1.0.info.info", ".info"), "v1.0");
    assert_eq!(text::trim_end_str("v1.0.info", ".mod"), "v1.0.info");
    assert_eq!(text::trim(" \t x y\n"), "x y");
    assert_eq!(text::trim("\u{3000}x\u{a0}"), "x");
}

#[test]
fn searching_a_text() {
    assert!(text::starts_with("https://x", "http"));
    assert!(!text::starts_with("ftp://x", "http"));
    assert!(text::ends_with("a.whl", ".whl"));
    assert!(!text::ends_with("whl", ".whl"));
    assert!(text::contains("a data-yanked b", "data-yanked"));
    assert!(!text::contains("data-yanke", "data-yanked"));
    assert!(text::contains("x", ""));
}

#[test]
fn replacing_goes_from_left_to_right() {
    assert_eq!(text::replace_text("aaa", "aa", "b"), "ba");
    assert_eq!(text::replace_text("p-2.0-py3", "-2.0-", "-1.0-"), "p-1.0-py3");
    assert_eq!(text::replace_text("none", "x", "y"), "none");
}

#[test]
fn lines_end_with_a_newline_and_an_optional_return() {
    assert_eq!(text::lines_of("a\r\nb\n\nc"), ["a", "b", "", "c"]);
    assert_eq!(text::lines_of("a\n"), ["a"]);
    assert!(text::lines_of("").is_empty());
}

#[test]
fn splitting_at_the_first_and_the_last_occurrence() {
    assert_eq!(text::split_once("a=b=c", '='), Some(("a", "b=c")));
    assert_eq!(text::split_once("abc", '='), None);
    assert_eq!(text::last_piece("a/b/c", '/'), "c");
    assert_eq!(text::first_piece("a#b#c", '#'), "a");
    assert_eq!(text::find_char("abc", 'c'), 2);
    assert_eq!(text::find_char("abc", 'x'), 3);
}

#[test]
fn texts_are_ordered_by_their_characters() {
    assert!(text::is_less("a", "b"));
    assert!(text::is_less("a", "ab"));
    assert!(!text::is_less("ab", "a"));
    assert!(!text::is_less("a", "a"));
}

#[test]
fn numbers_are_written_in_decimal() {
    assert_eq!(text::decimal_text(0), "0");
    assert_eq!(text::decimal_text(-42), "-42");
    assert_eq!(text::decimal_text(i64::MIN), "-9223372036854775808");
    assert_eq!(text::numeral_text(255, 16), "ff");
}

#[test]
fn a_written_number_is_read_back() {
    for n in [0, 1, -1, 7, 1000, i64::MAX, i64::MIN] {
        assert_eq!(text::parse_i64(&text::decimal_text(n)), Some(n));
    }
}

#[test]
fn numbers_are_read_as_std_reads_them() {
    for s in [
        "", "+", "-", "0", "+7", "-7", "007", "18446744073709551615", "18446744073709551616",
        "9223372036854775808", "-9223372036854775808", "-9223372036854775809", "1a", " 1", "-0",
    ] {
        assert_eq!(text::parse_u64(s), s.parse::<u64>().ok(), "{}", s);
        assert_eq!(text::parse_i64(s), s.parse::<i64>().ok(), "{}", s);
    }
}

#[test]
fn bytes_in_hexadecimal() {
    assert_eq!(hex_text(&vec![0, 15, 16, 255]), "000f10ff");
    assert_eq!(hex_text(&Vec::new()), "");
    assert_ne!(hex_text(&vec![1, 16]), hex_text(&vec![17, 0]));
}

#[test]
fn an_object_lists_each_name_once_in_order() {
    let json = Json::object()
        .put("b", Json::integer(1))
        .put("a", Json::Null)
        .put("b", Json::integer(2));
    assert_eq!(
        json,
        Json::Object(vec![
            ("a".to_string(), Json::Null),
            ("b".to_string(), Json::Number("2".to_string())),
        ])
    );
    assert_eq!(json.get("b"), Some(&Json::integer(2)));
    assert_eq!(json.get("c"), None);
    assert_eq!(json.get_str("a"), None);
    assert_eq!(json.clone(), json);
}

#[test]
fn only_an_object_takes_members() {
    assert_eq!(Json::Null.put("a", Json::Null), Json::Null);
    assert_eq!(Json::string("x").get("x"), None);
    assert_eq!(Json::string("x").as_str(), Some("x"));
    assert_eq!(Json::optional(&None), Json::Null);
    assert_eq!(Json::optional(&Some("x".to_string())), Json::string("x"));
}

#[test]
fn a_name_map_keeps_the_last_value() {
    let mut map: NameMap<String> = NameMap::new();
    assert!(map.is_empty());
    map.insert("b", "1".to_string());
    map.insert("a", "2".to_string());
    map.insert("b", "3".to_string());
    assert_eq!(map.len(), 2);
    assert_eq!(map.names(), ["a", "b"]);
    assert_eq!(map.get("b"), Some(&"3".to_string()));
    assert_eq!(map.get("c"), None);
    assert_eq!(map.entry(0), (&"a".to_string(), &"2".to_string()));
}
