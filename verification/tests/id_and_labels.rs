use kodex::id::{make_id, normalize_id};
use kodex::security::label::{sanitize_label, MAX_LABEL_LEN};

#[test]
fn test_make_id_basic() {
    assert_eq!(make_id(&["module", "ClassName"]), "module_classname");
}

#[test]
fn test_make_id_strips_dots_underscores() {
    assert_eq!(make_id(&["__init__", ".module"]), "init_module");
}

#[test]
fn test_make_id_special_chars() {
    assert_eq!(make_id(&["my-module", "Foo::Bar"]), "my_module_foo_bar");
}

#[test]
fn test_make_id_empty_parts() {
    assert_eq!(make_id(&["", "name", ""]), "name");
}

#[test]
fn test_normalize_id() {
    assert_eq!(normalize_id("Session_ValidateToken"), "session_validatetoken");
    assert_eq!(normalize_id("foo--bar"), "foo_bar");
}

#[test]
fn normalize_twice_is_normalize_once() {
    for s in ["__Foo--Bar__", "a..b", "", "___", "Hello World!", "x_y_z", "ÄÖ-ab"] {
        let once = normalize_id(s);
        assert_eq!(normalize_id(&once), once);
    }
}

#[test]
fn make_id_output_is_already_normal() {
    let id = make_id(&["My Module", "..Thing__"]);
    assert_eq!(id, "my_module_thing");
    assert_eq!(normalize_id(&id), id);
}

#[test]
fn test_strips_control_chars() {
    assert_eq!(sanitize_label("hello\x00world"), "helloworld");
    assert_eq!(sanitize_label("line\n\ttab"), "linetab");
}

#[test]
fn test_caps_length() {
    let long = "a".repeat(300);
    let result = sanitize_label(&long);
    assert_eq!(result.chars().count(), MAX_LABEL_LEN);
}

#[test]
fn test_normal_text() {
    assert_eq!(sanitize_label("Hello World"), "Hello World");
}

#[test]
fn test_multibyte_truncation_no_panic() {
    let mut input = "a".repeat(255);
    input.push('\u{1F600}');
    let result = sanitize_label(&input);
    assert_eq!(result.chars().count(), MAX_LABEL_LEN);
}

#[test]
fn sanitize_twice_is_sanitize_once() {
    let mut input = "\u{7f}ab\u{1}".repeat(100);
    input.push_str("tail");
    let once = sanitize_label(&input);
    assert_eq!(sanitize_label(&once), once);
    assert!(once.chars().count() <= 256);
    assert!(once.chars().all(|c| (c as u32) > 0x1f && (c as u32) != 0x7f));
}

#[test]
fn make_id_is_normalized_join() {
    for parts in [vec!["Module", "Class.Name"], vec!["_a_", "", "..b..", "C-d"], vec!["", "x"], vec!["-", "y"]] {
        assert_eq!(make_id(&parts), normalize_id(&parts.join("_")));
    }
}
