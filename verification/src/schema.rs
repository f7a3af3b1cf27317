//! What a subsystem hands the menu about its section of the shared ini: the
//! fields in menu order with their labels, kinds, defaults, ranges and help,
//! and the preset buttons. Decimal bounds and defaults are kept as the text
//! the ini holds, so the menu writes back exactly that spelling.

use vstd::prelude::*;

verus! {

/// What a field holds and how the menu edits it.
pub enum FieldKind {
    Bool { default: bool },
    Int { default: i64, min: i64, max: i64, step: i64, slider: bool, format: Option<String> },
    Float { default: String, min: String, max: String, format: Option<String> },
    Key { default: String },
}

pub enum FieldKindView {
    Bool { default: bool },
    Int { default: i64, min: i64, max: i64, step: i64, slider: bool, format: Option<Seq<char>> },
    Float { default: Seq<char>, min: Seq<char>, max: Seq<char>, format: Option<Seq<char>> },
    Key { default: Seq<char> },
}

/// One key of the section: the ini key, the menu's label, its kind, a dim
/// heading drawn before it, whether it shares the row of the one before,
/// and its help text.
pub struct Field {
    pub key: String,
    pub label: String,
    pub kind: FieldKind,
    pub heading: Option<String>,
    pub same_line: bool,
    pub help: Option<String>,
}

pub struct FieldView {
    pub key: Seq<char>,
    pub label: Seq<char>,
    pub kind: FieldKindView,
    pub heading: Option<Seq<char>>,
    pub same_line: bool,
    pub help: Option<Seq<char>>,
}

/// A preset button: its label, its hint, and the keys it sets.
pub struct Preset {
    pub label: String,
    pub hint: Option<String>,
    pub set: Vec<(String, String)>,
}

pub struct PresetView {
    pub label: Seq<char>,
    pub hint: Option<Seq<char>>,
    pub set: Seq<(Seq<char>, Seq<char>)>,
}

/// A subsystem's section: its title, the ini file and the `[Header]` it
/// owns, the module it needs loaded (if any), its place among the sections,
/// a notice, the presets and the fields.
pub struct Section {
    pub title: String,
    pub ini: String,
    pub ini_section: String,
    pub module: Option<String>,
    pub order: i64,
    pub notice: Option<String>,
    pub presets_label: Option<String>,
    pub presets: Vec<Preset>,
    pub fields: Vec<Field>,
}

pub struct SectionView {
    pub title: Seq<char>,
    pub ini: Seq<char>,
    pub ini_section: Seq<char>,
    pub module: Option<Seq<char>>,
    pub order: i64,
    pub notice: Option<Seq<char>>,
    pub presets_label: Option<Seq<char>>,
    pub presets: Seq<PresetView>,
    pub fields: Seq<FieldView>,
}

pub open spec fn opt_chars(s: Option<String>) -> Option<Seq<char>> {
    match s {
        Some(t) => Some(t@),
        None => None,
    }
}

pub open spec fn kind_v(k: FieldKind) -> FieldKindView {
    match k {
        FieldKind::Bool { default } => FieldKindView::Bool { default },
        FieldKind::Int { default, min, max, step, slider, format } => FieldKindView::Int {
            default,
            min,
            max,
            step,
            slider,
            format: opt_chars(format),
        },
        FieldKind::Float { default, min, max, format } => FieldKindView::Float {
            default: default@,
            min: min@,
            max: max@,
            format: opt_chars(format),
        },
        FieldKind::Key { default } => FieldKindView::Key { default: default@ },
    }
}

pub open spec fn field_v(f: Field) -> FieldView {
    FieldView {
        key: f.key@,
        label: f.label@,
        kind: kind_v(f.kind),
        heading: opt_chars(f.heading),
        same_line: f.same_line,
        help: opt_chars(f.help),
    }
}

pub open spec fn fields_view(v: Seq<Field>) -> Seq<FieldView> {
    v.map_values(|f: Field| field_v(f))
}

pub open spec fn pairs_view(v: Seq<(String, String)>) -> Seq<(Seq<char>, Seq<char>)> {
    v.map_values(|p: (String, String)| (p.0@, p.1@))
}

pub open spec fn preset_v(p: Preset) -> PresetView {
    PresetView { label: p.label@, hint: opt_chars(p.hint), set: pairs_view(p.set@) }
}

pub open spec fn presets_view(v: Seq<Preset>) -> Seq<PresetView> {
    v.map_values(|p: Preset| preset_v(p))
}

pub open spec fn section_v(s: Section) -> SectionView {
    SectionView {
        title: s.title@,
        ini: s.ini@,
        ini_section: s.ini_section@,
        module: opt_chars(s.module),
        order: s.order,
        notice: opt_chars(s.notice),
        presets_label: opt_chars(s.presets_label),
        presets: presets_view(s.presets@),
        fields: fields_view(s.fields@),
    }
}

} // verus!
