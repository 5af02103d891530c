use rustybox::matcher::{compile_expr, match_expr, match_substr};

fn search(pattern: &str, text: &str) -> bool {
    let compiled = compile_expr(&pattern.to_string());
    match_expr(&compiled, &text.to_string())
}

#[test]
fn empty_pattern_matches_every_text() {
    assert!(search("", ""));
    assert!(search("", "a"));
    assert!(search("", "some longer text"));
}

#[test]
fn anchored_literal_pattern() {
    assert!(search("^abc$", "abc"));
    assert!(!search("^abc$", "xabc"));
    assert!(!search("^abc$", "abcx"));
}

#[test]
fn wildcard_consumes_one_character() {
    assert!(search("a.c", "abc"));
    assert!(search("a.c", "axc"));
    assert!(!search("a.c", "ac"));
}

#[test]
fn start_anchor_matches_empty_text() {
    assert!(search("^", ""));
}

#[test]
fn end_anchor_matches_any_text() {
    assert!(search("$", ""));
    assert!(search("$", "a"));
    assert!(search("$", "hello"));
}

#[test]
fn substring_found_mid_text() {
    assert!(search("cat", "concatenate"));
    assert!(!search("cat", "cart"));
}

#[test]
fn wildcard_counts_code_points_not_bytes() {
    // One code point, two bytes when encoded.
    assert!(search(".", "\u{3bb}"));
    assert!(!search(".", ""));
    assert!(search("x.z", "x\u{3bb}z"));
    assert!(!search("x.z", "xz"));
}

#[test]
fn anchors_are_positional() {
    // A start anchor after a consuming atom checks the current cursor, so it
    // can never hold.
    assert!(!search("a^b", "ab"));
    // Doubled start anchors at offset 0 both hold.
    assert!(search("^^abc", "abc"));
    // An end anchor followed by a literal can never be completed.
    assert!(!search("$a", "a"));
}

#[test]
fn attempt_at_fixed_offsets() {
    let compiled = compile_expr(&"bc".to_string());
    let text: Vec<char> = "abc".chars().collect();
    assert!(match_substr(&compiled, &text, 1));
    assert!(!match_substr(&compiled, &text, 0));
    assert!(!match_substr(&compiled, &text, 2));
    assert!(!match_substr(&compiled, &text, 3));
}

#[test]
fn literal_special_characters_cannot_be_escaped() {
    // There is no escape syntax: a backslash is a plain literal atom.
    assert!(search("\\.", "a\\bc"));
    assert!(!search("\\.", "ab"));
}
