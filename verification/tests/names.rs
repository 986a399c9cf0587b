use egui_field_editor::{name_is_prettifiable, prettify_name};

#[test]
fn prettify_snake_case() {
    assert_eq!(prettify_name("my_field"), "My Field");
    assert_eq!(prettify_name("ugly_internal_field_name"), "Ugly Internal Field Name");
}

#[test]
fn prettify_trailing_number() {
    assert_eq!(prettify_name("my_field2"), "My Field 2");
    assert_eq!(prettify_name("my_field_2"), "My Field  2");
    assert_eq!(prettify_name("vec3"), "Vec 3");
    assert_eq!(prettify_name("unsigned32"), "Unsigned 32");
}

#[test]
fn prettify_inner_digits_stay() {
    assert_eq!(prettify_name("field2x"), "Field2x");
    assert_eq!(prettify_name("a1b"), "A1b");
}

#[test]
fn prettify_drops_empty_pieces() {
    assert_eq!(prettify_name("__a__b_"), "A B");
    assert_eq!(prettify_name("___"), "");
    assert_eq!(prettify_name(""), "");
}

#[test]
fn prettify_digit_only_words() {
    assert_eq!(prettify_name("a_1"), "A  1");
    assert_eq!(prettify_name("12"), " 12");
}

#[test]
fn prettify_keeps_other_letters() {
    assert_eq!(prettify_name("hELLO"), "HELLO");
    assert_eq!(prettify_name("Field 0"), "Field 0");
    assert_eq!(prettify_name("Field 3"), "Field 3");
    assert_eq!(prettify_name("field_2"), "Field  2");
    assert_eq!(prettify_name("123"), " 123");
    assert_eq!(prettify_name("x-y"), "X-y");
}

#[test]
fn prettify_uppercases_non_ascii() {
    assert_eq!(prettify_name("\u{e9}t\u{e9}s_x"), "\u{c9}t\u{e9}s X");
    assert_eq!(prettify_name("\u{df}a"), "SSa");
}

#[test]
fn prettify_ascii_loses_underscores() {
    for name in ["a_b_c", "_x_", "some_long_name_42", "a__b"] {
        let r = prettify_name(name);
        assert!(!r.contains('_'), "{r}");
        assert!(r.is_ascii());
    }
}

#[test]
fn prettifiable_names() {
    for name in ["a_b_c", "field2", "", "___", "x_12", "Field 0"] {
        assert!(name_is_prettifiable(name), "{name}");
    }
    assert!(name_is_prettifiable("\u{e9}a"));
    assert!(name_is_prettifiable("a_\u{e9}x_1"));
    assert!(!name_is_prettifiable("\u{e9}"));
    assert!(!name_is_prettifiable("caf\u{e9}_1"));
    assert!(!name_is_prettifiable("a__\u{e9}12"));
}

#[test]
fn prettify_underscore_join() {
    for (a, b) in [("my", "field"), ("a_b", "c2"), ("x_", "_y"), ("Field 3", "x")] {
        let joined = format!("{a}_{b}");
        assert_eq!(prettify_name(&joined), format!("{} {}", prettify_name(a), prettify_name(b)));
    }
}
