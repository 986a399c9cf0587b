//! Verified core of an `egui` field-editor library: the naming, text and
//! decision logic that the widgets and the derive code are built on.

pub mod text;
pub mod names;
pub mod attributes;
pub mod widgets;

pub use attributes::{
    bool_true, default_field_name, plan_enum_variants, AttributeArgs, DatePickerParams,
    ExecuteBtn, FieldEditor, FilePathParams, HashMapOptions, Multiline, Range, VariantInfo,
};
pub use names::{name_is_prettifiable, prettify_name};
pub use widgets::{
    add_allowed, apply_list_buttons, collection_header, edited_entry_key, file_dialog_filters,
    free_entry_index, free_entry_key, header_toggle, item_label, key_to_remove, list_button_actions,
    set_option_presence, CharString, ListButtonActions, StrokeKindChoice,
};
