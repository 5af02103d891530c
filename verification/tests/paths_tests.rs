use rustybox::paths::basename;
use rustybox::text::to_chars;

#[test]
fn basename_of_nested_path() {
    assert_eq!(basename(&"a/b/c".to_string()), "c");
}

#[test]
fn basename_without_slash_is_the_whole_path() {
    assert_eq!(basename(&"name".to_string()), "name");
}

#[test]
fn basename_of_trailing_slash_is_empty() {
    assert_eq!(basename(&"a/b/".to_string()), "");
}

#[test]
fn basename_of_empty_path_is_empty() {
    assert_eq!(basename(&"".to_string()), "");
}

#[test]
fn basename_of_rooted_path() {
    assert_eq!(basename(&"/x".to_string()), "x");
}

#[test]
fn to_chars_splits_by_code_point() {
    let chars = to_chars(&"h\u{e9}\u{3bb}".to_string());
    assert_eq!(chars, vec!['h', '\u{e9}', '\u{3bb}']);
}
