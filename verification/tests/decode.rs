use mycelia::json::parse_entries;

#[test]
fn scenario_single_entry() {
    let r = parse_entries("[{\"id\":\"1\",\"text\":\"hello\"}]");
    let v = r.expect("a single well-formed entry must decode");
    assert_eq!(v.len(), 1);
    assert_eq!(v[0].id, "1");
    assert_eq!(v[0].text, "hello");
}

#[test]
fn empty_array_decodes() {
    let v = parse_entries("[]").expect("an empty array must decode");
    assert_eq!(v.len(), 0);
}

#[test]
fn whitespace_around_tokens_is_ignored() {
    let v = parse_entries("  [ \n ]  \t").expect("whitespace around the array is allowed");
    assert_eq!(v.len(), 0);
    let v = parse_entries(" [ { \"id\" : \"a\" , \"text\" : \"b\" } ] ")
        .expect("whitespace between tokens is allowed");
    assert_eq!(v.len(), 1);
    assert_eq!(v[0].id, "a");
    assert_eq!(v[0].text, "b");
}

#[test]
fn field_order_may_be_swapped() {
    let v = parse_entries("[{\"text\":\"body\",\"id\":\"7\"}]").expect("either field order decodes");
    assert_eq!(v.len(), 1);
    assert_eq!(v[0].id, "7");
    assert_eq!(v[0].text, "body");
}

#[test]
fn order_of_entries_is_kept() {
    let body = "[{\"id\":\"1\",\"text\":\"a\"},{\"id\":\"2\",\"text\":\"b\"},{\"id\":\"3\",\"text\":\"c\"}]";
    let v = parse_entries(body).expect("three entries must decode");
    assert_eq!(v.len(), 3);
    assert_eq!(v[0].id, "1");
    assert_eq!(v[1].id, "2");
    assert_eq!(v[2].id, "3");
    assert_eq!(v[2].text, "c");
}

#[test]
fn escapes_decode() {
    let body = "[{\"id\":\"q\\\"uote\",\"text\":\"line\\nbreak\\t back\\\\slash \\/ \\u0041\"}]";
    let v = parse_entries(body).expect("escaped strings must decode");
    assert_eq!(v.len(), 1);
    assert_eq!(v[0].id, "q\"uote");
    assert_eq!(v[0].text, "line\nbreak\t back\\slash / A");
}

#[test]
fn control_escapes_decode() {
    let body = "[{\"id\":\"\\u0009\",\"text\":\"\\b\\f\\r\"}]";
    let v = parse_entries(body).expect("control escapes must decode");
    assert_eq!(v[0].id, "\t");
    assert_eq!(v[0].text, "\u{8}\u{c}\r");
}

#[test]
fn unicode_text_passes_through() {
    let body = "[{\"id\":\"\u{263A}\",\"text\":\"\u{1F600} caf\u{e9}\"}]";
    let v = parse_entries(body).expect("raw unicode in strings must decode");
    assert_eq!(v[0].id, "\u{263A}");
    assert_eq!(v[0].text, "\u{1F600} caf\u{e9}");
}

#[test]
fn surrogate_pairs_decode() {
    let body = "[{\"id\":\"\\uD83D\\uDE00\",\"text\":\"pair\"}]";
    let v = parse_entries(body).expect("a surrogate pair names one character");
    assert_eq!(v[0].id, "\u{1F600}");
    assert_eq!(v[0].text, "pair");
}

#[test]
fn unpaired_surrogates_are_refused() {
    assert!(parse_entries("[{\"id\":\"\\uD800x\",\"text\":\"a\"}]").is_err());
    assert!(parse_entries("[{\"id\":\"\\uDC00\",\"text\":\"a\"}]").is_err());
    assert!(parse_entries("[{\"id\":\"\\uD83D\\uD83D\",\"text\":\"a\"}]").is_err());
}

#[test]
fn malformed_bodies_are_refused() {
    let cases = [
        "",
        "not json",
        "{\"id\":\"1\",\"text\":\"a\"}",
        "[{\"id\":\"1\"}]",
        "[{\"id\":\"1\",\"text\":2}]",
        "[{\"id\":1,\"text\":\"a\"}]",
        "[{\"id\":\"1\",\"text\":\"a\",\"extra\":\"b\"}]",
        "[{\"id\":\"a\",\"id\":\"b\"}]",
        "[] trailing",
        "[{\"id\":\"1\",\"text\":\"a\"}",
        "[{\"id\":\"1\",\"text\":\"a\"},]",
        "[\"just a string\"]",
        "[{\"id\":\"unterminated",
        "[{\"id\":\"\\q\",\"text\":\"a\"}]",
        "[{\"id\":\"\\uD800\",\"text\":\"a\"}]",
        "[{\"id\":\"\\u12\",\"text\":\"a\"}]",
        "null",
    ];
    for body in cases {
        let r = parse_entries(body);
        let m = r.err().unwrap_or_else(|| panic!("{:?} must be refused", body));
        assert!(!m.is_empty());
    }
}

#[test]
fn raw_control_characters_are_refused() {
    let body = "[{\"id\":\"a\u{0}b\",\"text\":\"c\"}]";
    assert!(parse_entries(body).is_err());
}
