use rustybox::passwd::{lookup_id_line, parse_u32_radix, IdLookup};

#[test]
fn parse_decimal() {
    assert_eq!(parse_u32_radix(&"123".to_string(), 10), Some(123));
    assert_eq!(parse_u32_radix(&"0".to_string(), 10), Some(0));
}

#[test]
fn parse_accepts_one_leading_plus() {
    assert_eq!(parse_u32_radix(&"+123".to_string(), 10), Some(123));
    assert_eq!(parse_u32_radix(&"++1".to_string(), 10), None);
}

#[test]
fn parse_rejects_empty_and_sign_only() {
    assert_eq!(parse_u32_radix(&"".to_string(), 10), None);
    assert_eq!(parse_u32_radix(&"+".to_string(), 10), None);
}

#[test]
fn parse_rejects_stray_characters() {
    assert_eq!(parse_u32_radix(&"12a".to_string(), 10), None);
    assert_eq!(parse_u32_radix(&" 12".to_string(), 10), None);
    assert_eq!(parse_u32_radix(&"-1".to_string(), 10), None);
}

#[test]
fn parse_at_the_limit() {
    assert_eq!(
        parse_u32_radix(&"4294967295".to_string(), 10),
        Some(u32::MAX)
    );
    assert_eq!(parse_u32_radix(&"4294967296".to_string(), 10), None);
    assert_eq!(
        parse_u32_radix(&"999999999999999999999".to_string(), 10),
        None
    );
}

#[test]
fn parse_octal() {
    assert_eq!(parse_u32_radix(&"777".to_string(), 8), Some(0o777));
    assert_eq!(parse_u32_radix(&"8".to_string(), 8), None);
    assert_eq!(parse_u32_radix(&"644".to_string(), 8), Some(0o644));
}

#[test]
fn lookup_finds_matching_id() {
    let line = "root:x:0:0:root:/root:/bin/bash".to_string();
    assert_eq!(lookup_id_line(&line, 0), IdLookup::Found("root".to_string()));
}

#[test]
fn lookup_passes_over_other_ids() {
    let line = "daemon:x:1:1:daemon:/usr/sbin:/usr/sbin/nologin".to_string();
    assert_eq!(lookup_id_line(&line, 5), IdLookup::NoMatch);
}

#[test]
fn lookup_on_short_line_is_malformed() {
    assert_eq!(lookup_id_line(&"a:b".to_string(), 1), IdLookup::Malformed);
    assert_eq!(
        lookup_id_line(&"no separators here".to_string(), 1),
        IdLookup::Malformed
    );
}

#[test]
fn lookup_on_non_numeric_id_is_malformed() {
    let line = "name:x:abc:1".to_string();
    assert_eq!(lookup_id_line(&line, 1), IdLookup::Malformed);
}

#[test]
fn lookup_with_exactly_three_fields() {
    let line = "games:x:5".to_string();
    assert_eq!(
        lookup_id_line(&line, 5),
        IdLookup::Found("games".to_string())
    );
}
