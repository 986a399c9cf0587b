# egui_field_editor

Inspector widgets for `egui`: a `EguiInspect` trait, editors for common
types, and the code generation behind `#[derive(EguiInspect)]`.

- `src/` is the verified core (Verus): readable labels from identifiers
  (`prettify_name`), the choice of editor and label from `inspect`
  attributes, the enum variant selector plan, the one-character text buffer,
  the stroke kind list, the collapsing header toggle, optional values, the
  free key of a new map entry, list `+`/`-` buttons, collection labels and
  file dialog filters. Each public function states its result in its
  `ensures`; the proof functions state the laws that relate them.
- `app/` holds the `egui` widgets and the derive code generation, which call
  the core for every decision listed above.
- `tests/` runs the core on concrete values.
