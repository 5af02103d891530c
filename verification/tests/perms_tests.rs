use rustybox::perms::{convert_mode, format_mode};

#[test]
fn add_permission_for_user() {
    assert_eq!(convert_mode(0o644, &"u+x".to_string()), Some(0o744));
}

#[test]
fn remove_permissions_for_group_and_others() {
    assert_eq!(convert_mode(0o777, &"go-rwx".to_string()), Some(0o700));
}

#[test]
fn add_read_for_all() {
    assert_eq!(convert_mode(0o000, &"a+r".to_string()), Some(0o444));
}

#[test]
fn several_users_and_permissions() {
    assert_eq!(convert_mode(0o641, &"ug-rw".to_string()), Some(0o001));
}

#[test]
fn empty_user_part_selects_nothing() {
    assert_eq!(convert_mode(0o644, &"+x".to_string()), Some(0o644));
}

#[test]
fn removing_unset_bits_changes_nothing() {
    assert_eq!(convert_mode(0o600, &"o-w".to_string()), Some(0o600));
}

#[test]
fn mode_without_sign_is_invalid() {
    assert_eq!(convert_mode(0o644, &"ug".to_string()), None);
}

#[test]
fn empty_mode_string_is_invalid() {
    assert_eq!(convert_mode(0o644, &"".to_string()), None);
}

#[test]
fn sign_with_empty_permission_part_is_invalid() {
    assert_eq!(convert_mode(0o644, &"u+".to_string()), None);
}

#[test]
fn unknown_user_character_is_invalid() {
    assert_eq!(convert_mode(0o644, &"z+r".to_string()), None);
}

#[test]
fn unknown_permission_character_is_invalid() {
    assert_eq!(convert_mode(0o644, &"u+z".to_string()), None);
}

#[test]
fn second_sign_is_invalid() {
    assert_eq!(convert_mode(0o644, &"u+r-w".to_string()), None);
}

#[test]
fn format_mode_directory() {
    assert_eq!(format_mode(0o754, false, true), "drwxr-xr--");
}

#[test]
fn format_mode_plain_file() {
    assert_eq!(format_mode(0o644, false, false), "-rw-r--r--");
}

#[test]
fn format_mode_symlink() {
    assert_eq!(format_mode(0o777, true, false), "lrwxrwxrwx");
}

#[test]
fn format_mode_no_permissions() {
    assert_eq!(format_mode(0o000, false, false), "----------");
}
