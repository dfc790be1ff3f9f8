use attempt_engine::json::{lookup_field, scan_json_object};
use attempt_engine::text::{contains_sub, dec_u128, is_blank, split_on, str_eq, str_le, trim};

#[test]
fn trim_strips_both_ends() {
    assert_eq!(trim("  hello  "), "hello");
    assert_eq!(trim("\t\r\nx\n"), "x");
    assert_eq!(trim(""), "");
    assert_eq!(trim("   "), "");
    assert_eq!(trim("inner  space"), "inner  space");
}

#[test]
fn blankness_is_trim_emptiness() {
    assert!(is_blank(""));
    assert!(is_blank(" \t\r\n"));
    assert!(!is_blank(" x "));
}

#[test]
fn string_compare_is_lexicographic() {
    assert!(str_le("a", "b"));
    assert!(str_le("abc", "abd"));
    assert!(str_le("ab", "abc"));
    assert!(str_le("abc", "abc"));
    assert!(!str_le("b", "a"));
    assert!(!str_le("abc", "ab"));
    assert!(str_eq("same", "same"));
    assert!(!str_eq("same", "sane"));
}

#[test]
fn decimal_rendering_is_exact() {
    assert_eq!(dec_u128(0), "0");
    assert_eq!(dec_u128(7), "7");
    assert_eq!(dec_u128(10), "10");
    assert_eq!(dec_u128(105), "105");
    assert_eq!(dec_u128(340282366920938463463374607431768211455), "340282366920938463463374607431768211455");
}

#[test]
fn splitting_keeps_every_piece() {
    let pieces = split_on("a,b,,c", ",");
    assert_eq!(pieces, vec!["a", "b", "", "c"]);
    let pieces = split_on("no separator here", "|");
    assert_eq!(pieces, vec!["no separator here"]);
    let pieces = split_on("xx", "x");
    assert_eq!(pieces, vec!["", "", ""]);
}

#[test]
fn substring_search_finds_inner_text() {
    assert!(contains_sub("status code: 403 returned", "status code: 403"));
    assert!(!contains_sub("status code: 401", "status code: 403"));
    assert!(contains_sub("abc", ""));
}

#[test]
fn json_object_lines_parse_fields() {
    let fields = scan_json_object("{\"type\": \"assistant\", \"content\": \"a b\"}").unwrap();
    assert_eq!(fields.len(), 2);
    assert_eq!(lookup_field(&fields, "type").unwrap(), "assistant");
    assert_eq!(lookup_field(&fields, "content").unwrap(), "a b");
    assert!(lookup_field(&fields, "missing").is_none());
}

#[test]
fn json_escapes_are_decoded() {
    let fields =
        scan_json_object("{\"plan\": \"step 1\\nstep 2\", \"q\": \"say \\\"hi\\\"\"}").unwrap();
    assert_eq!(lookup_field(&fields, "plan").unwrap(), "step 1\nstep 2");
    assert_eq!(lookup_field(&fields, "q").unwrap(), "say \"hi\"");
}

#[test]
fn json_rejects_lines_outside_the_grammar() {
    assert!(scan_json_object("not json").is_none());
    assert!(scan_json_object("{\"a\": 1}").is_none());
    assert!(scan_json_object("{\"a\": \"b\"} trailing").is_none());
    assert!(scan_json_object("{\"a\": \"b\"").is_none());
    assert!(scan_json_object("{\"bad\": \"\\u0041\"}").is_none());
}

#[test]
fn json_empty_object_parses() {
    let fields = scan_json_object("  { }  ").unwrap();
    assert_eq!(fields.len(), 0);
}
