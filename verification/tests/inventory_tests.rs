use cargo_installed::inventory::get_installed;

#[test]
fn parse_two_records_with_origin() {
    let text = "foo v1.2.0:\n    foo\nbar v0.9.0 (/home/me/bar):\n    bar-cli\n";
    let parsed = get_installed(text).unwrap();
    assert_eq!(parsed.len(), 2);
    assert_eq!(parsed[0].name, "foo");
    assert_eq!(parsed[0].version, "1.2.0");
    assert_eq!(parsed[0].from, None);
    assert_eq!(parsed[0].commands, vec!["foo".to_string()]);
    assert_eq!(parsed[1].name, "bar");
    assert_eq!(parsed[1].version, "0.9.0");
    assert_eq!(parsed[1].from, Some("/home/me/bar".to_string()));
    assert_eq!(parsed[1].commands, vec!["bar-cli".to_string()]);
}

#[test]
fn parse_empty_listing_yields_no_records() {
    let parsed = get_installed("").unwrap();
    assert_eq!(parsed.len(), 0);
}

#[test]
fn parse_header_without_continuations() {
    let parsed = get_installed("solo v0.1.0:\n").unwrap();
    assert_eq!(parsed.len(), 1);
    assert_eq!(parsed[0].name, "solo");
    assert_eq!(parsed[0].version, "0.1.0");
    assert!(parsed[0].commands.is_empty());
}

#[test]
fn parse_keeps_the_last_record() {
    let text = "first v1.0.0:\n    a\nsecond v2.0.0:\n    b\nthird v3.0.0:\n    c\n    c2\n";
    let parsed = get_installed(text).unwrap();
    assert_eq!(parsed.len(), 3);
    assert_eq!(parsed[2].name, "third");
    assert_eq!(parsed[2].version, "3.0.0");
    assert_eq!(parsed[2].commands, vec!["c".to_string(), "c2".to_string()]);
}

#[test]
fn parse_without_trailing_newline_keeps_last_record() {
    let parsed = get_installed("tool v0.2.1:\n    tool").unwrap();
    assert_eq!(parsed.len(), 1);
    assert_eq!(parsed[0].name, "tool");
    assert_eq!(parsed[0].commands, vec!["tool".to_string()]);
}

#[test]
fn parse_malformed_header_reports_the_line() {
    let err = get_installed("justonetoken:\n").unwrap_err();
    assert_eq!(err.line, "justonetoken:");
}

#[test]
fn parse_continuation_before_any_header_is_an_error() {
    let err = get_installed("    dangling\n").unwrap_err();
    assert_eq!(err.line, "    dangling");
}

#[test]
fn parse_strips_one_leading_v_from_the_version() {
    let parsed = get_installed("pkg vv1.0.0:\n").unwrap();
    assert_eq!(parsed[0].version, "v1.0.0");
}

#[test]
fn parse_records_registry_origin_without_slash() {
    let parsed = get_installed("pkg v1.0.0 (registry):\n").unwrap();
    assert_eq!(parsed[0].from, Some("registry".to_string()));
}
