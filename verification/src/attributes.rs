//! The options that the `inspect` attributes carry, and the decisions that
//! the generated editor code is built from.

use vstd::prelude::*;

use crate::names::{prettified, prettify_defined, prettify_name};
use crate::text::{decimal, push_decimal};

verus! {

/// Always `true`: the default of [`ExecuteBtn::is_method`].
pub fn bool_true() -> (r: bool)
    ensures
        r,
{
    true
}

/// A `min`/`max` pair given to an attribute.
#[derive(Debug, Clone, Default)]
pub struct Range<T> {
    pub min: T,
    pub max: T,
}

/// Options of the `date` attribute (the date picker widget).
#[derive(Debug)]
pub struct DatePickerParams {
    /// Show combo boxes in the date picker popup.
    pub combo_boxes: bool,
    /// Show arrows in the date picker popup.
    pub arrows: bool,
    /// Show the calendar in the date picker popup.
    pub calendar: bool,
    /// Show the calendar week in the date picker popup.
    pub calendar_week: bool,
    /// Show the calendar icon on the button.
    pub show_icon: bool,
    /// The format shown on the button (strftime syntax).
    pub format: String,
    /// Highlight weekend days.
    pub highlight_weekends: bool,
    /// The years the dropdown offers; `None` leaves the widget's own default.
    pub start_end_years: Option<Range<i16>>,
}

impl Default for DatePickerParams {
    /// Every switch on, the format `%Y-%m-%d`, and no year range.
    fn default() -> (r: Self)
        ensures
            r.combo_boxes,
            r.arrows,
            r.calendar,
            r.calendar_week,
            r.show_icon,
            r.format@ == "%Y-%m-%d"@,
            r.highlight_weekends,
            r.start_end_years is None,
    {
        DatePickerParams {
            combo_boxes: true,
            arrows: true,
            calendar: true,
            calendar_week: true,
            show_icon: true,
            format: "%Y-%m-%d".to_owned(),
            highlight_weekends: true,
            start_end_years: None,
        }
    }
}

/// The number of rows a `multiline` attribute gives when it names none.
pub const DEFAULT_MULTILINE_ROWS: u8 = 4;

/// Options of the `multiline` attribute: the number of rows to show.
#[derive(Debug, Default)]
pub struct Multiline(pub Option<u8>);

impl Multiline {
    /// The option that a `multiline` attribute stands for, given the row
    /// count written in it (`multiline = 6`, `multiline(6)`), if any: that
    /// count, else [`DEFAULT_MULTILINE_ROWS`].
    pub fn from_rows(rows: Option<u8>) -> (m: Multiline)
        ensures
            m.0 == Some(
                match rows {
                    Some(n) => n,
                    None => DEFAULT_MULTILINE_ROWS,
                },
            ),
            rows is None ==> m.0 == Some(4u8),
    {
        match rows {
            Some(n) => Multiline(Some(n)),
            None => Multiline(Some(DEFAULT_MULTILINE_ROWS)),
        }
    }
}

/// Options of the `file` attribute: the filters of the file dialog.
#[derive(Debug, Default)]
pub struct FilePathParams {
    pub filter: Vec<String>,
}

/// Options of the `hashmap` attribute.
#[derive(Debug, Default)]
pub struct HashMapOptions {
    /// Offer buttons that add and delete entries.
    pub allow_add_delete: bool,
    /// Let the keys be edited.
    pub editable_keys: bool,
    /// A function to edit the values with, in place of the default editor.
    pub custom_fn: Option<String>,
}

/// A method (or free function) to offer as a button under the editor.
#[derive(Debug)]
pub struct ExecuteBtn {
    pub fn_name: String,
    pub is_method: bool,
    pub label: Option<String>,
    pub tooltip: Option<String>,
}

impl ExecuteBtn {
    /// The text of the button: the given label, else the readable form of
    /// the function's name.
    pub fn button_label(&self) -> (r: String)
        requires
            self.label is None ==> prettify_defined(self.fn_name@),
        ensures
            r@ == match self.label {
                Some(l) => l@,
                None => prettified(self.fn_name@),
            },
    {
        match &self.label {
            Some(l) => l.clone(),
            None => prettify_name(self.fn_name.as_str()),
        }
    }

    /// The tooltip of the button: the given tooltip, else empty.
    pub fn tooltip_text(&self) -> (r: String)
        ensures
            r@ == match self.tooltip {
                Some(t) => t@,
                None => Seq::<char>::empty(),
            },
    {
        match &self.tooltip {
            Some(t) => t.clone(),
            None => String::new(),
        }
    }
}

/// The options of an `inspect` attribute on a field or an enum variant.
/// `N` is the type of the bounds given to `slider` and `range`.
#[derive(Debug, Default)]
pub struct AttributeArgs<N> {
    /// The label to show in place of the field's name.
    pub name: Option<String>,
    /// Generate no editor for this field.
    pub hidden: bool,
    /// Show the field without letting it be edited.
    pub read_only: bool,
    /// Show no label and do not indent.
    pub transparent: bool,
    /// Edit the number with a slider between these bounds.
    pub slider: Option<Range<N>>,
    /// Edit the text on several lines.
    pub multiline: Option<Multiline>,
    /// Edit the value as a color.
    pub color: bool,
    /// Keep the number between these bounds.
    pub range: Option<Range<N>>,
    /// The tooltip of the field.
    pub tooltip: Option<String>,
    /// Edit the value with a date picker.
    pub date: Option<DatePickerParams>,
    /// Edit the path with a file picker.
    pub file: Option<FilePathParams>,
    /// Edit the value through its string form.
    pub from_string: bool,
    /// A function to edit the field with.
    pub custom_fn: Option<String>,
    /// Options of the map editor.
    pub hashmap: Option<HashMapOptions>,
}

/// The editor that the generated code calls for a field.
#[derive(PartialEq, Eq, Structural, Clone, Copy, Debug)]
pub enum FieldEditor {
    /// The function named by `custom_fn`.
    CustomFn,
    /// `add_number_slider`.
    NumberSlider,
    /// `add_number` with bounds.
    BoundedNumber,
    /// `add_string_convertible_multiline`.
    StringConvertibleMultiline,
    /// `add_string_convertible`.
    StringConvertible,
    /// `add_string_multiline`.
    StringMultiline,
    /// `add_color`.
    Color,
    /// `add_path`.
    Path,
    /// `add_date`.
    Date,
    /// `add_hashmap_custom`.
    HashMapCustom,
    /// `add_hashmap`.
    HashMap,
    /// The field type's own `EguiInspect::inspect_with_custom_id`.
    Inspect,
}

impl<N> AttributeArgs<N> {
    /// The editor the generated code calls for a field with these options.
    /// The first option present in this order decides: `custom_fn`,
    /// `slider`, `range`, `from_string` (on several lines if `multiline` is
    /// present too), `multiline`, `color`, `file`, `date`, `hashmap` (with
    /// or without its own `custom_fn`); with none of them the field's own
    /// editor is used.
    pub fn field_editor(&self) -> (e: FieldEditor)
        ensures
            e == (if self.custom_fn is Some {
                FieldEditor::CustomFn
            } else if self.slider is Some {
                FieldEditor::NumberSlider
            } else if self.range is Some {
                FieldEditor::BoundedNumber
            } else if self.from_string {
                if self.multiline is Some {
                    FieldEditor::StringConvertibleMultiline
                } else {
                    FieldEditor::StringConvertible
                }
            } else if self.multiline is Some {
                FieldEditor::StringMultiline
            } else if self.color {
                FieldEditor::Color
            } else if self.file is Some {
                FieldEditor::Path
            } else if self.date is Some {
                FieldEditor::Date
            } else if self.hashmap is Some {
                if self.hashmap->0.custom_fn is Some {
                    FieldEditor::HashMapCustom
                } else {
                    FieldEditor::HashMap
                }
            } else {
                FieldEditor::Inspect
            }),
    {
        if self.custom_fn.is_some() {
            FieldEditor::CustomFn
        } else if self.slider.is_some() {
            FieldEditor::NumberSlider
        } else if self.range.is_some() {
            FieldEditor::BoundedNumber
        } else if self.from_string {
            if self.multiline.is_some() {
                FieldEditor::StringConvertibleMultiline
            } else {
                FieldEditor::StringConvertible
            }
        } else if self.multiline.is_some() {
            FieldEditor::StringMultiline
        } else if self.color {
            FieldEditor::Color
        } else if self.file.is_some() {
            FieldEditor::Path
        } else if self.date.is_some() {
            FieldEditor::Date
        } else {
            match &self.hashmap {
                Some(h) => {
                    if h.custom_fn.is_some() {
                        FieldEditor::HashMapCustom
                    } else {
                        FieldEditor::HashMap
                    }
                },
                None => FieldEditor::Inspect,
            }
        }
    }

    /// The label shown for a field with these options: empty when the field
    /// is transparent, else the given name, else the readable form of the
    /// field's identifier, else the readable form of `default_name` (for
    /// fields that have no identifier).
    pub fn field_label(&self, ident: Option<&str>, default_name: &str) -> (r: String)
        requires
            !self.transparent && self.name is None ==> prettify_defined(
                match ident {
                    Some(i) => i@,
                    None => default_name@,
                },
            ),
        ensures
            r@ == (if self.transparent {
                Seq::<char>::empty()
            } else {
                match self.name {
                    Some(n) => n@,
                    None => match ident {
                        Some(i) => prettified(i@),
                        None => prettified(default_name@),
                    },
                }
            }),
    {
        if self.transparent {
            String::new()
        } else {
            match &self.name {
                Some(n) => n.clone(),
                None => match ident {
                    Some(i) => prettify_name(i),
                    None => prettify_name(default_name),
                },
            }
        }
    }

    /// Makes the field read-only when the variant that holds it is.
    pub fn inherit_read_only(&mut self, parent_read_only: bool)
        ensures
            *final(self) == (AttributeArgs {
                read_only: old(self).read_only || parent_read_only,
                ..*old(self)
            }),
    {
        self.read_only = self.read_only || parent_read_only;
    }
}

/// The name a field without identifier goes by: `Field <index>`.
pub fn default_field_name(index: usize) -> (r: String)
    ensures
        r@ == "Field "@ + decimal(index as nat),
{
    let mut r = "Field ".to_owned();
    push_decimal(&mut r, index);
    r
}


/// An enum variant, as the derive code sees it: its identifier and the
/// options of its `inspect` attribute.
pub struct VariantInfo<N> {
    pub ident: String,
    pub attrs: AttributeArgs<N>,
}

/// A variant offered in the variant selector, by its position among all the
/// variants, with the text it is shown with.
pub struct ShownVariant {
    pub index: usize,
    pub label: String,
}

/// What the enum editor offers: the variants to select from, and whether a
/// fallback arm is needed for hidden variants.
pub struct EnumPlan {
    pub shown: Vec<ShownVariant>,
    pub has_hidden: bool,
}

/// The text a variant is shown with: its `name` option, else its
/// identifier.
pub open spec fn variant_label<N>(v: VariantInfo<N>) -> Seq<char> {
    match v.attrs.name {
        Some(n) => n@,
        None => v.ident@,
    }
}

/// The variants of `vs` that are not hidden, each as its position and its
/// text, in order.
pub open spec fn shown_variants<N>(vs: Seq<VariantInfo<N>>) -> Seq<(int, Seq<char>)>
    decreases vs.len(),
{
    if vs.len() == 0 {
        Seq::empty()
    } else if vs.last().attrs.hidden {
        shown_variants(vs.drop_last())
    } else {
        shown_variants(vs.drop_last()).push(((vs.len() - 1) as int, variant_label(vs.last())))
    }
}

/// What the variant selector lists, stated on the variants themselves:
/// each entry names a variant that is not hidden, by its position, with
/// that variant's text; the entries go by increasing position; and every
/// variant that is not hidden has an entry.
pub proof fn lemma_shown_variants_exact<N>(vs: Seq<VariantInfo<N>>)
    ensures
        forall|k: int|
            0 <= k < shown_variants(vs).len() ==> {
                &&& 0 <= (#[trigger] shown_variants(vs)[k]).0 < vs.len()
                &&& !vs[shown_variants(vs)[k].0].attrs.hidden
                &&& shown_variants(vs)[k].1 == variant_label(vs[shown_variants(vs)[k].0])
            },
        forall|k1: int, k2: int|
            0 <= k1 < k2 < shown_variants(vs).len() ==> (#[trigger] shown_variants(vs)[k1]).0
                < (#[trigger] shown_variants(vs)[k2]).0,
        forall|i: int|
            0 <= i < vs.len() && !(#[trigger] vs[i]).attrs.hidden ==> exists|k: int|
                0 <= k < shown_variants(vs).len() && (#[trigger] shown_variants(vs)[k]).0 == i,
    decreases vs.len(),
{
    if vs.len() > 0 {
        let t = vs.drop_last();
        lemma_shown_variants_exact(t);
        let st = shown_variants(t);
        let sv = shown_variants(vs);
        let last = (vs.len() - 1) as int;
        assert forall|k: int| 0 <= k < st.len() implies 0 <= (#[trigger] st[k]).0 < t.len()
            && vs[st[k].0] == t[st[k].0] by {}
        if vs.last().attrs.hidden {
            assert(sv == st);
            assert forall|i: int| 0 <= i < vs.len() && !(#[trigger] vs[i]).attrs.hidden implies exists|
                k: int,
            | 0 <= k < sv.len() && (#[trigger] sv[k]).0 == i by {
                assert(t[i] == vs[i]);
            }
        } else {
            assert(sv == st.push((last, variant_label(vs.last()))));
            assert forall|k: int| 0 <= k < sv.len() implies {
                &&& 0 <= (#[trigger] sv[k]).0 < vs.len()
                &&& !vs[sv[k].0].attrs.hidden
                &&& sv[k].1 == variant_label(vs[sv[k].0])
            } by {
                if k < st.len() {
                    assert(sv[k] == st[k]);
                }
            }
            assert forall|k1: int, k2: int| 0 <= k1 < k2 < sv.len() implies (#[trigger] sv[k1]).0
                < (#[trigger] sv[k2]).0 by {
                assert(sv[k1] == st[k1]);
                if k2 < st.len() {
                    assert(sv[k2] == st[k2]);
                }
            }
            assert forall|i: int| 0 <= i < vs.len() && !(#[trigger] vs[i]).attrs.hidden implies exists|
                k: int,
            | 0 <= k < sv.len() && (#[trigger] sv[k]).0 == i by {
                if i == last {
                    assert(sv[st.len() as int].0 == i);
                } else {
                    assert(t[i] == vs[i]);
                    let k = choose|k: int| 0 <= k < st.len() && (#[trigger] st[k]).0 == i;
                    assert(sv[k] == st[k]);
                }
            }
        }
    }
}

/// Decides what the editor of an enum offers: every variant that is not
/// hidden, in order, with its text; and a fallback when some variant is
/// hidden.
pub fn plan_enum_variants<N>(variants: &Vec<VariantInfo<N>>) -> (plan: EnumPlan)
    ensures
        plan.shown@.len() == shown_variants(variants@).len(),
        forall|k: int|
            0 <= k < plan.shown@.len() ==> {
                &&& (#[trigger] plan.shown@[k]).index == shown_variants(variants@)[k].0
                &&& plan.shown@[k].label@ == shown_variants(variants@)[k].1
            },
        plan.has_hidden == exists|i: int| 0 <= i < variants@.len() && #[trigger] variants@[i].attrs.hidden,
        forall|k: int|
            0 <= k < plan.shown@.len() ==> {
                &&& (#[trigger] plan.shown@[k]).index < variants@.len()
                &&& !variants@[plan.shown@[k].index as int].attrs.hidden
                &&& plan.shown@[k].label@ == variant_label(variants@[plan.shown@[k].index as int])
            },
        forall|k1: int, k2: int|
            0 <= k1 < k2 < plan.shown@.len() ==> (#[trigger] plan.shown@[k1]).index
                < (#[trigger] plan.shown@[k2]).index,
        forall|i: int|
            0 <= i < variants@.len() && !(#[trigger] variants@[i]).attrs.hidden ==> exists|k: int|
                0 <= k < plan.shown@.len() && (#[trigger] plan.shown@[k]).index == i,
{
    let n = variants.len();
    let mut shown: Vec<ShownVariant> = Vec::new();
    let mut has_hidden = false;
    for i in 0..n
        invariant
            n == variants@.len(),
            shown@.len() == shown_variants(variants@.take(i as int)).len(),
            forall|k: int|
                0 <= k < shown@.len() ==> {
                    &&& (#[trigger] shown@[k]).index == shown_variants(variants@.take(i as int))[k].0
                    &&& shown@[k].label@ == shown_variants(variants@.take(i as int))[k].1
                },
            has_hidden == exists|j: int| 0 <= j < i && #[trigger] variants@[j].attrs.hidden,
    {
        let v = &variants[i];
        proof {
            assert(variants@.take(i + 1).drop_last() =~= variants@.take(i as int));
            assert(variants@.take(i + 1).last() == variants@[i as int]);
        }
        if v.attrs.hidden {
            has_hidden = true;
        } else {
            let label = match &v.attrs.name {
                Some(name) => name.clone(),
                None => v.ident.clone(),
            };
            shown.push(ShownVariant { index: i, label });
        }
    }
    proof {
        assert(variants@.take(n as int) =~= variants@);
        lemma_shown_variants_exact(variants@);
        let sv = shown_variants(variants@);
        assert forall|k: int| 0 <= k < shown@.len() implies (#[trigger] shown@[k]).index as int
            == sv[k].0 by {}
        assert forall|i: int|
            0 <= i < variants@.len() && !(#[trigger] variants@[i]).attrs.hidden implies exists|k: int|
            0 <= k < shown@.len() && (#[trigger] shown@[k]).index == i by {
            let k = choose|k: int| 0 <= k < sv.len() && (#[trigger] sv[k]).0 == i;
            assert(shown@[k].index == sv[k].0);
        }
    }
    EnumPlan { shown, has_hidden }
}

} // verus!
