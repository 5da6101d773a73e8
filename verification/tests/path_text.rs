//! Path-string handling and the decimal helpers.

use packdiag::input;
use packdiag::paths::{file_name, path_buf_to_key_name, push, sanitize_path};
use packdiag::text::{parse_u64, split_lines, u64_string};

#[test]
fn file_name_is_what_follows_the_last_separator() {
    assert_eq!(file_name("Images/Icons/a.png"), "a.png");
    assert_eq!(file_name("Images\\Icons\\a.png"), "a.png");
    assert_eq!(file_name("a.png"), "a.png");
    assert_eq!(input::file_name("Images/a.png"), "a.png");
}

#[test]
fn push_joins_with_a_separator() {
    assert_eq!(push("Images", "a.png"), "Images/a.png");
    assert_eq!(push("Images/", "a.png"), "Images/a.png");
    assert_eq!(push("", "a.png"), "a.png");
    assert_eq!(input::child_path("out", "images.slop"), "out/images.slop");
}

#[test]
fn sanitize_path_leaves_the_parent_relative_to_the_base() {
    assert_eq!(sanitize_path("Images/Icons/a.png", "Images"), Some("Icons".to_string()));
    assert_eq!(sanitize_path("Images/a.png", "Images"), Some("".to_string()));
    assert_eq!(sanitize_path("Other/Icons/a.png", "Images"), None);
    assert_eq!(
        input::sanitize_path("Images/UI/Chat/b.png", "Images"),
        Some("UI/Chat".to_string())
    );
}

#[test]
fn key_names_are_rooted_and_forward_slashed() {
    assert_eq!(path_buf_to_key_name("Icons"), "/Icons");
    assert_eq!(path_buf_to_key_name("UI\\Chat"), "/UI/Chat");
    assert_eq!(path_buf_to_key_name(""), "/");
    assert_eq!(input::path_buf_to_key_name("Icons"), "/Icons");
}

#[test]
fn digits_print_and_read_back() {
    assert_eq!(u64_string(0), "0");
    assert_eq!(u64_string(1007), "1007");
    assert_eq!(parse_u64("0"), Some(0));
    assert_eq!(parse_u64("1007"), Some(1007));
    assert_eq!(parse_u64("007"), Some(7));
    assert_eq!(parse_u64(""), None);
    assert_eq!(parse_u64("12a"), None);
    assert_eq!(parse_u64("99999999999999999999999"), None);
}

#[test]
fn split_lines_handles_the_last_line_without_newline() {
    assert_eq!(split_lines("a\nb"), vec!["a".to_string(), "b".to_string()]);
    assert_eq!(split_lines("a\nb\n"), vec!["a".to_string(), "b".to_string()]);
}
