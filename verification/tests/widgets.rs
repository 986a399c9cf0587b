use egui_field_editor::{
    add_allowed, edited_entry_key, key_to_remove, list_button_actions,
    apply_list_buttons, collection_header, file_dialog_filters, free_entry_index, free_entry_key,
    header_toggle, item_label, set_option_presence, CharString, StrokeKindChoice,
};

#[test]
fn char_string_holds_one_char() {
    let mut s = CharString::new('a');
    assert_eq!(s.char(), 'a');
    assert_eq!(s.as_str(), "a");
    assert!(s.is_mutable());
    assert_eq!(s.insert_text("xyz"), 0);
    assert_eq!(s.char(), 'x');
    s.insert_text("");
    assert_eq!(s.char(), 'x');
    s.delete_char_range(0, 1);
    assert_eq!(s.as_str(), "x");
    s.insert_text("\u{e9}t\u{e9}");
    assert_eq!(s.char(), '\u{e9}');
}

#[test]
fn stroke_kind_round_trip() {
    for k in [StrokeKindChoice::Inside, StrokeKindChoice::Middle, StrokeKindChoice::Outside] {
        assert_eq!(StrokeKindChoice::from_index(k.index()), k);
    }
    assert_eq!(StrokeKindChoice::Middle.index(), 1);
    assert_eq!(StrokeKindChoice::labels(), vec!["Inside", "Middle", "Outside"]);
    for i in 0..3 {
        assert_eq!(StrokeKindChoice::from_index(i).index(), i);
    }
}

#[test]
fn header_toggle_follows_request() {
    assert!(header_toggle(Some(true), false, false));
    assert!(!header_toggle(Some(true), true, true));
    assert!(header_toggle(Some(false), true, false));
    assert!(!header_toggle(Some(false), false, true));
    assert!(header_toggle(None, false, true));
    assert!(header_toggle(None, true, true));
    assert!(!header_toggle(None, true, false));
}

#[test]
fn option_presence() {
    let mut o: Option<u32> = None;
    set_option_presence(&mut o, true, || 7);
    assert_eq!(o, Some(7));
    set_option_presence(&mut o, true, || 9);
    assert_eq!(o, Some(7));
    set_option_presence(&mut o, false, || 9);
    assert_eq!(o, None);
    set_option_presence(&mut o, false, || 9);
    assert_eq!(o, None);
}

fn keys(ks: &[&str]) -> Vec<String> {
    ks.iter().map(|k| k.to_string()).collect()
}

#[test]
fn free_entry_key_is_smallest_free_number() {
    assert_eq!(free_entry_key(&keys(&[])), "0");
    assert_eq!(free_entry_key(&keys(&["0", "1", "3"])), "2");
    assert_eq!(free_entry_key(&keys(&["1", "a"])), "0");
    assert_eq!(free_entry_key(&keys(&["2", "1", "0", "x"])), "3");
    assert_eq!(free_entry_index(&keys(&["0", "00", "1"])), 2);
    let many: Vec<String> = (0..12).map(|i| i.to_string()).collect();
    assert_eq!(free_entry_key(&many), "12");
    assert!(!many.contains(&free_entry_key(&many)));
}

#[test]
fn labels_of_collections() {
    assert_eq!(collection_header("Items", 3), "Items [3]");
    assert_eq!(collection_header("", 0), " [0]");
    assert_eq!(item_label(0), "Item 0");
    assert_eq!(item_label(12), "Item 12");
    assert_ne!(item_label(1), item_label(10));
}

#[test]
fn dialog_filters() {
    assert!(file_dialog_filters(&vec![]).is_empty());
    let r = file_dialog_filters(&vec!["png,jpg".to_string(), "txt".to_string()]);
    let got: Vec<(String, Vec<String>)> =
        r.into_iter().map(|f| (f.name, f.extensions)).collect();
    assert_eq!(
        got,
        vec![
            ("png,jpg".to_string(), vec!["png".to_string(), "jpg".to_string()]),
            ("txt".to_string(), vec!["txt".to_string()]),
            ("All Files".to_string(), vec!["*.*".to_string()]),
        ]
    );
    let r = file_dialog_filters(&vec!["".to_string()]);
    assert_eq!(r[0].extensions, vec!["".to_string()]);
    assert_eq!(r.len(), 2);
}

#[test]
fn list_buttons() {
    let mut v = vec![1, 2];
    assert!(apply_list_buttons(&mut v, true, false, || 0));
    assert_eq!(v, vec![1, 2, 0]);
    assert!(apply_list_buttons(&mut v, false, true, || 0));
    assert_eq!(v, vec![1, 2]);
    assert!(apply_list_buttons(&mut v, true, true, || 5));
    assert_eq!(v, vec![1, 2]);
    assert!(!apply_list_buttons(&mut v, false, false, || 5));
    let mut e: Vec<i32> = vec![];
    assert!(!apply_list_buttons(&mut e, false, true, || 5));
    assert!(e.is_empty());
}

#[test]
fn map_key_edits() {
    let k = "a".to_string();
    assert_eq!(edited_entry_key(&k, &"b".to_string(), true), ("b".to_string(), true));
    assert_eq!(edited_entry_key(&k, &"b".to_string(), false), ("a".to_string(), false));
    assert_eq!(edited_entry_key(&k, &"a".to_string(), true), ("a".to_string(), false));
    assert_eq!(key_to_remove(&keys(&[])), None);
    assert_eq!(key_to_remove(&keys(&["x", "y"])), Some("y".to_string()));
}

#[test]
fn list_buttons_with_capacity() {
    assert!(add_allowed(3, None));
    assert!(add_allowed(3, Some(4)));
    assert!(!add_allowed(4, Some(4)));
    let a = list_button_actions(4, Some(4), true, false);
    assert!(!a.push && !a.pop && !a.changed);
    let a = list_button_actions(2, Some(4), true, false);
    assert!(a.push && !a.pop && a.changed);
    let a = list_button_actions(0, None, false, true);
    assert!(!a.push && a.pop && !a.changed);
    let a = list_button_actions(1, None, false, true);
    assert!(a.pop && a.changed);
}
