use egui_field_editor::{
    bool_true, default_field_name, plan_enum_variants, AttributeArgs, DatePickerParams,
    ExecuteBtn, FieldEditor, FilePathParams, HashMapOptions, Multiline, Range, VariantInfo,
};

fn args() -> AttributeArgs<f32> {
    AttributeArgs::default()
}

#[test]
fn bool_true_is_true() {
    assert!(bool_true());
}

#[test]
fn date_picker_defaults() {
    let d = DatePickerParams::default();
    assert!(d.combo_boxes && d.arrows && d.calendar && d.calendar_week);
    assert!(d.show_icon && d.highlight_weekends);
    assert_eq!(d.format, "%Y-%m-%d");
    assert!(d.start_end_years.is_none());
}

#[test]
fn multiline_rows() {
    assert_eq!(Multiline::from_rows(None).0, Some(4));
    assert_eq!(Multiline::from_rows(Some(7)).0, Some(7));
}

#[test]
fn editor_without_options_is_the_field_own() {
    assert_eq!(args().field_editor(), FieldEditor::Inspect);
}

#[test]
fn editor_custom_fn_wins() {
    let mut a = args();
    a.custom_fn = Some("my_editor".to_string());
    a.slider = Some(Range { min: 0.0, max: 1.0 });
    a.color = true;
    assert_eq!(a.field_editor(), FieldEditor::CustomFn);
}

#[test]
fn editor_slider_before_range() {
    let mut a = args();
    a.slider = Some(Range { min: 0.0, max: 1.0 });
    a.range = Some(Range { min: 0.0, max: 1.0 });
    assert_eq!(a.field_editor(), FieldEditor::NumberSlider);
    a.slider = None;
    assert_eq!(a.field_editor(), FieldEditor::BoundedNumber);
}

#[test]
fn editor_from_string_with_multiline() {
    let mut a = args();
    a.from_string = true;
    assert_eq!(a.field_editor(), FieldEditor::StringConvertible);
    a.multiline = Some(Multiline(Some(3)));
    assert_eq!(a.field_editor(), FieldEditor::StringConvertibleMultiline);
    a.from_string = false;
    assert_eq!(a.field_editor(), FieldEditor::StringMultiline);
}

#[test]
fn editor_color_file_date_hashmap() {
    let mut a = args();
    a.hashmap = Some(HashMapOptions::default());
    assert_eq!(a.field_editor(), FieldEditor::HashMap);
    a.hashmap = Some(HashMapOptions {
        allow_add_delete: true,
        editable_keys: false,
        custom_fn: Some("f".to_string()),
    });
    assert_eq!(a.field_editor(), FieldEditor::HashMapCustom);
    a.date = Some(DatePickerParams::default());
    assert_eq!(a.field_editor(), FieldEditor::Date);
    a.file = Some(FilePathParams { filter: vec![] });
    assert_eq!(a.field_editor(), FieldEditor::Path);
    a.color = true;
    assert_eq!(a.field_editor(), FieldEditor::Color);
}

#[test]
fn label_of_transparent_field_is_empty() {
    let mut a = args();
    a.transparent = true;
    a.name = Some("Shown".to_string());
    assert_eq!(a.field_label(Some("my_field"), ""), "");
}

#[test]
fn label_name_wins_over_identifier() {
    let mut a = args();
    a.name = Some("A proper field name".to_string());
    assert_eq!(a.field_label(Some("ugly_internal_field_name"), ""), "A proper field name");
}

#[test]
fn label_from_identifier_or_default() {
    let a = args();
    assert_eq!(a.field_label(Some("ugly_internal_field_name"), ""), "Ugly Internal Field Name");
    let default = default_field_name(1);
    assert_eq!(default, "Field 1");
    assert_eq!(default_field_name(10), "Field 10");
    assert_eq!(a.field_label(None, &default), "Field 1");
}

#[test]
fn inherit_read_only() {
    let mut a = args();
    a.inherit_read_only(false);
    assert!(!a.read_only);
    a.inherit_read_only(true);
    assert!(a.read_only);
    a.inherit_read_only(false);
    assert!(a.read_only);
}

#[test]
fn execute_button_texts() {
    let b = ExecuteBtn {
        fn_name: "reset_all_values".to_string(),
        is_method: true,
        label: None,
        tooltip: None,
    };
    assert_eq!(b.button_label(), "Reset All Values");
    assert_eq!(b.tooltip_text(), "");
    let b = ExecuteBtn {
        fn_name: "reset".to_string(),
        is_method: false,
        label: Some("Reset!".to_string()),
        tooltip: Some("Resets".to_string()),
    };
    assert_eq!(b.button_label(), "Reset!");
    assert_eq!(b.tooltip_text(), "Resets");
}

fn variant(ident: &str, name: Option<&str>, hidden: bool) -> VariantInfo<f32> {
    let mut attrs = args();
    attrs.name = name.map(|n| n.to_string());
    attrs.hidden = hidden;
    VariantInfo { ident: ident.to_string(), attrs }
}

#[test]
fn enum_plan_skips_hidden_variants() {
    let vs = vec![
        variant("None", None, false),
        variant("Secret", None, true),
        variant("ByName", Some("By name"), false),
        variant("ById", None, false),
    ];
    let plan = plan_enum_variants(&vs);
    assert!(plan.has_hidden);
    let shown: Vec<(usize, String)> = plan.shown.iter().map(|s| (s.index, s.label.clone())).collect();
    assert_eq!(
        shown,
        vec![(0, "None".to_string()), (2, "By name".to_string()), (3, "ById".to_string())]
    );
}

#[test]
fn enum_plan_without_hidden_variants() {
    let vs = vec![variant("A", None, false), variant("B", None, false)];
    let plan = plan_enum_variants(&vs);
    assert!(!plan.has_hidden);
    assert_eq!(plan.shown.len(), 2);
    let empty: Vec<VariantInfo<f32>> = vec![];
    let plan = plan_enum_variants(&empty);
    assert!(!plan.has_hidden && plan.shown.is_empty());
}
