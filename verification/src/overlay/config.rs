//! The overlay's own settings: its switches, the menu key and the
//! `ColorSpace` key, what the menu's pixels are encoded for.

use vstd::prelude::*;
use vstd::string::StringSliceAdditionalSpecFns;
use vstd::utf8::*;

use crate::gatherer::config::{unknown_warning, unknown_warning_exec};
use crate::ini::{lemma_lines_valid, line_valid, lines, lines_spec, lines_view, parse_bool, truthy, Line, SpecLine};
use crate::looter::config::{dq, lemma_lit_valid, quoted_between};
use crate::keys::{keys_view, vk_from_name, vk_lookup};
use crate::strings::{hex_pad, push_hex_pad, push_str, string_of};
use crate::text::eq_ic_exec;

use crate::strings::lit;
use crate::text::{eq_ic, eq_ic_at, lemma_eq_ic_symm, lemma_eq_ic_trans, lemma_trim_idem, lower, trim, trim_at, trim_end, trim_start};

verus! {

/// `Insert`: the default key that shows and hides the menu.
pub const DEFAULT_KEY_MENU: u16 = 0x2D;

#[derive(Debug, Clone, Copy, PartialEq, Eq, Structural)]
pub enum ColorSpace {
    /// Follow the swapchain. The default.
    Auto,
    /// Force sRGB passthrough.
    Sdr,
    /// Force HDR10: BT.2020 primaries, PQ transfer.
    Hdr10,
    /// Force scRGB: linear BT.709.
    ScRgb,
}

impl Default for ColorSpace {
    fn default() -> (r: ColorSpace)
        ensures
            r == ColorSpace::Auto,
    {
        ColorSpace::Auto
    }
}

/// The ini spelling of each colour space.
pub open spec fn color_space_name(c: ColorSpace) -> Seq<char> {
    match c {
        ColorSpace::Auto => "auto"@,
        ColorSpace::Sdr => "sdr"@,
        ColorSpace::Hdr10 => "hdr10"@,
        ColorSpace::ScRgb => "scrgb"@,
    }
}

/// What an ini value names, trimmed and ASCII case-insensitively.
pub open spec fn color_space_of(value: Seq<u8>) -> Option<ColorSpace> {
    let t = trim(value);
    if eq_ic(t, lit("auto")) {
        Some(ColorSpace::Auto)
    } else if eq_ic(t, lit("sdr")) {
        Some(ColorSpace::Sdr)
    } else if eq_ic(t, lit("hdr10")) {
        Some(ColorSpace::Hdr10)
    } else if eq_ic(t, lit("scrgb")) {
        Some(ColorSpace::ScRgb)
    } else {
        None
    }
}

impl ColorSpace {
    /// The ini spelling, which is also how the startup log prints it.
    pub fn as_str(self) -> (r: &'static str)
        ensures
            r@ == color_space_name(self),
    {
        match self {
            ColorSpace::Auto => "auto",
            ColorSpace::Sdr => "sdr",
            ColorSpace::Hdr10 => "hdr10",
            ColorSpace::ScRgb => "scrgb",
        }
    }

    /// Parse an ini value. Case-insensitive; `None` for anything unknown.
    pub fn parse(value: &str) -> (r: Option<ColorSpace>)
        ensures
            r == color_space_of(lit(value)),
    {
        let b = value.as_bytes();
        let (lo, hi) = trim_at(b, 0, b.len());
        proof {
            assert(b@.subrange(0, b@.len() as int) =~= b@);
        }
        if eq_ic_at(b, lo, hi, "auto".as_bytes()) {
            Some(ColorSpace::Auto)
        } else if eq_ic_at(b, lo, hi, "sdr".as_bytes()) {
            Some(ColorSpace::Sdr)
        } else if eq_ic_at(b, lo, hi, "hdr10".as_bytes()) {
            Some(ColorSpace::Hdr10)
        } else if eq_ic_at(b, lo, hi, "scrgb".as_bytes()) {
            Some(ColorSpace::ScRgb)
        } else {
            None
        }
    }
}

/// Every colour space reads back from its own spelling.
pub proof fn lemma_color_space_round_trip(c: ColorSpace)
    ensures
        color_space_of(encode_utf8(color_space_name(c))) == Some(c),
{
    reveal_strlit("auto");
    reveal_strlit("sdr");
    reveal_strlit("hdr10");
    reveal_strlit("scrgb");
    let auto = seq![0x61u8, 0x75, 0x74, 0x6F];
    let sdr = seq![0x73u8, 0x64, 0x72];
    let hdr = seq![0x68u8, 0x64, 0x72, 0x31, 0x30];
    let scrgb = seq![0x73u8, 0x63, 0x72, 0x67, 0x62];
    assert(lit("auto") =~= auto) by {
        broadcast use vstd::string::group_string_axioms;
        assert("auto".is_ascii());
    }
    assert(lit("sdr") =~= sdr) by {
        broadcast use vstd::string::group_string_axioms;
        assert("sdr".is_ascii());
    }
    assert(lit("hdr10") =~= hdr) by {
        broadcast use vstd::string::group_string_axioms;
        assert("hdr10".is_ascii());
    }
    assert(lit("scrgb") =~= scrgb) by {
        broadcast use vstd::string::group_string_axioms;
        assert("scrgb".is_ascii());
    }
    let b = encode_utf8(color_space_name(c));
    assert(trim(b) == b) by {
        assert(trim_start(b) == b);
        assert(trim_end(b) == b);
    }
    assert(!eq_ic(sdr, auto));
    assert(!eq_ic(hdr, auto));
    assert(!eq_ic(hdr, sdr));
    assert(!eq_ic(scrgb, auto));
    assert(!eq_ic(scrgb, sdr));
    assert(!eq_ic(scrgb, hdr)) by {
        assert(lower(scrgb[1]) != lower(hdr[1]));
    }
    assert(eq_ic(b, b));
}

/// Surrounding whitespace and ASCII case do not matter: two values whose
/// trimmed texts are equal ignoring ASCII case name the same colour space,
/// and a value names what its trimmed text names.
pub proof fn lemma_color_space_trim_and_case(v: Seq<u8>, w: Seq<u8>)
    ensures
        color_space_of(trim(v)) == color_space_of(v),
        eq_ic(trim(v), trim(w)) ==> color_space_of(v) == color_space_of(w),
{
    lemma_trim_idem(v);
    if eq_ic(trim(v), trim(w)) {
        let a = trim(v);
        let b = trim(w);
        lemma_eq_ic_symm(a, b);
        let names = seq![lit("auto"), lit("sdr"), lit("hdr10"), lit("scrgb")];
        assert forall|k: int| 0 <= k < 4 implies eq_ic(a, #[trigger] names[k]) == eq_ic(b, names[k]) by {
            if eq_ic(a, names[k]) {
                lemma_eq_ic_trans(b, a, names[k]);
            }
            if eq_ic(b, names[k]) {
                lemma_eq_ic_trans(a, b, names[k]);
            }
        }
        assert(names[0] == lit("auto"));
        assert(names[1] == lit("sdr"));
        assert(names[2] == lit("hdr10"));
        assert(names[3] == lit("scrgb"));
    }
}


// ---------------------------------------------------------------------------
// The overlay's own settings
// ---------------------------------------------------------------------------

/// The overlay's settings that are switches, the colour space and the menu
/// key. `Scale` and `HdrBrightness` are decimals: `parse` hands those back as
/// raw text for the caller to convert.
#[derive(Debug, Clone, Copy, PartialEq, Eq, Structural)]
pub struct Config {
    pub enabled: bool,
    pub debug: bool,
    pub show_on_start: bool,
    pub color_space: ColorSpace,
    pub key_menu: u16,
}

pub open spec fn default_config() -> Config {
    Config { enabled: true, debug: false, show_on_start: false, color_space: ColorSpace::Auto, key_menu: DEFAULT_KEY_MENU }
}

impl Default for Config {
    fn default() -> (r: Config)
        ensures
            r == default_config(),
    {
        Config { enabled: true, debug: false, show_on_start: false, color_space: ColorSpace::Auto, key_menu: DEFAULT_KEY_MENU }
    }
}

/// The keys whose value the caller converts.
#[derive(Debug, Clone, Copy, PartialEq, Eq, Structural)]
pub enum RawKey {
    Scale,
    HdrBrightness,
}

/// A ready-to-log warning, or a value (with its key as written) for the
/// caller to convert, in file order.
pub enum Note {
    Warning(String),
    Raw(RawKey, String, String),
}

pub enum NoteView {
    Warning(Seq<u8>),
    Raw(RawKey, Seq<u8>, Seq<u8>),
}

pub open spec fn note_v(n: Note) -> NoteView {
    match n {
        Note::Warning(s) => NoteView::Warning(encode_utf8(s@)),
        Note::Raw(r, k, v) => NoteView::Raw(r, encode_utf8(k@), encode_utf8(v@)),
    }
}

pub open spec fn notes_view(v: Seq<Note>) -> Seq<NoteView> {
    v.map_values(|n: Note| note_v(n))
}

/// `KeyMenu: unknown key name "nope", keeping 0x2D`.
pub open spec fn key_menu_warning(v: Seq<u8>, keep: u16) -> Seq<u8> {
    lit("KeyMenu: unknown key name ") + dq(v) + (lit(", keeping 0x") + hex_pad(keep as nat, 2))
}

/// `ColorSpace: unknown value "hdr" (auto, sdr, hdr10, scrgb), keeping auto`.
pub open spec fn color_space_warning(v: Seq<u8>, keep: ColorSpace) -> Seq<u8> {
    lit("ColorSpace: unknown value ") + dq(v) + (lit(" (auto, sdr, hdr10, scrgb), keeping ") + encode_utf8(color_space_name(keep)))
}

pub open spec fn pair_step(keys: Seq<(Seq<u8>, u16)>, c: Config, w: Seq<NoteView>, k: Seq<u8>, v: Seq<u8>) -> (Config, Seq<NoteView>) {
    if eq_ic(k, lit("enabled")) {
        (Config { enabled: truthy(v), ..c }, w)
    } else if eq_ic(k, lit("debug")) {
        (Config { debug: truthy(v), ..c }, w)
    } else if eq_ic(k, lit("showonstart")) {
        (Config { show_on_start: truthy(v), ..c }, w)
    } else if eq_ic(k, lit("colorspace")) {
        match color_space_of(v) {
            Some(cs) => (Config { color_space: cs, ..c }, w),
            None => (c, w.push(NoteView::Warning(color_space_warning(v, c.color_space)))),
        }
    } else if eq_ic(k, lit("scale")) {
        (c, w.push(NoteView::Raw(RawKey::Scale, k, v)))
    } else if eq_ic(k, lit("hdrbrightness")) {
        (c, w.push(NoteView::Raw(RawKey::HdrBrightness, k, v)))
    } else if eq_ic(k, lit("keymenu")) {
        match vk_lookup(keys, v) {
            Some(vk) => (Config { key_menu: vk, ..c }, w),
            None => (c, w.push(NoteView::Warning(key_menu_warning(v, c.key_menu)))),
        }
    } else {
        (c, w.push(NoteView::Warning(unknown_warning(k))))
    }
}

pub open spec fn line_step(keys: Seq<(Seq<u8>, u16)>, acc: (Config, Seq<NoteView>), l: SpecLine) -> (Config, Seq<NoteView>) {
    match l {
        SpecLine::Bad(m) => (acc.0, acc.1.push(NoteView::Warning(m))),
        SpecLine::Pair(k, v) => pair_step(keys, acc.0, acc.1, k, v),
    }
}

pub open spec fn parse_lines(keys: Seq<(Seq<u8>, u16)>, ls: Seq<SpecLine>) -> (Config, Seq<NoteView>)
    decreases ls.len(),
{
    if ls.len() == 0 {
        (default_config(), seq![])
    } else {
        line_step(keys, parse_lines(keys, ls.drop_last()), ls.last())
    }
}

/// What `parse` reads out of the overlay's ini text, key names through
/// `keys`.
pub open spec fn parse_spec(text: &str, keys: Seq<(Seq<u8>, u16)>) -> (Config, Seq<NoteView>) {
    parse_lines(keys, lines_spec(text.spec_bytes()))
}

fn push_note(notes: &mut Vec<Note>, n: Note)
    ensures
        notes_view(final(notes)@) == notes_view(old(notes)@).push(note_v(n)),
{
    let ghost before = notes@;
    notes.push(n);
    proof {
        assert(notes_view(notes@) =~= notes_view(before).push(note_v(n)));
    }
}

fn raw_note(notes: &mut Vec<Note>, r: RawKey, k: &[u8], v: &[u8])
    requires
        valid_utf8(k@),
        valid_utf8(v@),
    ensures
        notes_view(final(notes)@) == notes_view(old(notes)@).push(NoteView::Raw(r, k@, v@)),
{
    let ks = string_of(k);
    let vs = string_of(v);
    push_note(notes, Note::Raw(r, ks, vs));
}

fn key_menu_warning_exec(v: &[u8], keep: u16) -> (r: String)
    requires
        valid_utf8(v@),
    ensures
        encode_utf8(r@) == key_menu_warning(v@, keep),
{
    let mut post: Vec<u8> = Vec::new();
    push_str(&mut post, ", keeping 0x");
    proof {
        lemma_lit_valid("KeyMenu: unknown key name ");
        lemma_lit_valid(", keeping 0x");
    }
    push_hex_pad(&mut post, keep as u64, 2);
    quoted_between("KeyMenu: unknown key name ".as_bytes(), v, post.as_slice())
}

fn color_space_warning_exec(v: &[u8], keep: ColorSpace) -> (r: String)
    requires
        valid_utf8(v@),
    ensures
        encode_utf8(r@) == color_space_warning(v@, keep),
{
    let mut post: Vec<u8> = Vec::new();
    push_str(&mut post, " (auto, sdr, hdr10, scrgb), keeping ");
    let name = keep.as_str();
    push_str(&mut post, name);
    proof {
        lemma_lit_valid("ColorSpace: unknown value ");
        lemma_lit_valid(" (auto, sdr, hdr10, scrgb), keeping ");
        lemma_lit_valid(name);
        valid_utf8_concat(lit(" (auto, sdr, hdr10, scrgb), keeping "), lit(name));
    }
    quoted_between("ColorSpace: unknown value ".as_bytes(), v, post.as_slice())
}

fn apply_pair(keys: &[(String, u16)], c: Config, notes: &mut Vec<Note>, k: &[u8], v: &[u8]) -> (r: Config)
    requires
        valid_utf8(k@),
        valid_utf8(v@),
    ensures
        r == pair_step(keys_view(keys@), c, notes_view(old(notes)@), k@, v@).0,
        notes_view(final(notes)@) == pair_step(keys_view(keys@), c, notes_view(old(notes)@), k@, v@).1,
{
    if eq_ic_exec(k, "enabled".as_bytes()) {
        Config { enabled: parse_bool(v), ..c }
    } else if eq_ic_exec(k, "debug".as_bytes()) {
        Config { debug: parse_bool(v), ..c }
    } else if eq_ic_exec(k, "showonstart".as_bytes()) {
        Config { show_on_start: parse_bool(v), ..c }
    } else if eq_ic_exec(k, "colorspace".as_bytes()) {
        match color_space_of_bytes(v) {
            Some(cs) => Config { color_space: cs, ..c },
            None => {
                let w = color_space_warning_exec(v, c.color_space);
                push_note(notes, Note::Warning(w));
                c
            },
        }
    } else if eq_ic_exec(k, "scale".as_bytes()) {
        raw_note(notes, RawKey::Scale, k, v);
        c
    } else if eq_ic_exec(k, "hdrbrightness".as_bytes()) {
        raw_note(notes, RawKey::HdrBrightness, k, v);
        c
    } else if eq_ic_exec(k, "keymenu".as_bytes()) {
        match vk_from_name(keys, v) {
            Some(vk) => Config { key_menu: vk, ..c },
            None => {
                let w = key_menu_warning_exec(v, c.key_menu);
                push_note(notes, Note::Warning(w));
                c
            },
        }
    } else {
        let w = unknown_warning_exec(k);
        push_note(notes, Note::Warning(w));
        c
    }
}

/// `ColorSpace::parse` on bytes.
fn color_space_of_bytes(b: &[u8]) -> (r: Option<ColorSpace>)
    ensures
        r == color_space_of(b@),
{
    let (lo, hi) = trim_at(b, 0, b.len());
    proof {
        assert(b@.subrange(0, b@.len() as int) =~= b@);
    }
    if eq_ic_at(b, lo, hi, "auto".as_bytes()) {
        Some(ColorSpace::Auto)
    } else if eq_ic_at(b, lo, hi, "sdr".as_bytes()) {
        Some(ColorSpace::Sdr)
    } else if eq_ic_at(b, lo, hi, "hdr10".as_bytes()) {
        Some(ColorSpace::Hdr10)
    } else if eq_ic_at(b, lo, hi, "scrgb".as_bytes()) {
        Some(ColorSpace::ScRgb)
    } else {
        None
    }
}

/// Parses the overlay's ini text, the menu key's name through `keys`. A bad
/// line, an unknown colour space, an unknown key name and an unknown key
/// each leave a warning and keep the value in force; the decimals come back
/// as raw notes, in file order.
pub fn parse(text: &str, keys: &[(String, u16)]) -> (r: (Config, Vec<Note>))
    ensures
        r.0 == parse_spec(text, keys_view(keys@)).0,
        notes_view(r.1@) == parse_spec(text, keys_view(keys@)).1,
{
    let ls = lines(text.as_bytes());
    let ghost all = lines_spec(text.spec_bytes());
    proof {
        lemma_lit_valid(text);
        lemma_lines_valid(text.spec_bytes());
    }
    let mut cfg = Config::default();
    let mut notes: Vec<Note> = Vec::new();
    let mut i: usize = 0;
    while i < ls.len()
        invariant
            lines_view(ls@) == all,
            forall|j: int| 0 <= j < all.len() ==> line_valid(#[trigger] all[j]),
            0 <= i <= ls.len(),
            (cfg, notes_view(notes@)) == parse_lines(keys_view(keys@), all.take(i as int)),
        decreases ls.len() - i,
    {
        let ghost l = all[i as int];
        assert(ls@[i as int]@ == l);
        proof {
            assert(all.take(i + 1).drop_last() =~= all.take(i as int));
            assert(all.take(i + 1).last() == l);
        }
        match &ls[i] {
            Line::Bad(m) => {
                let s = string_of(m.as_slice());
                push_note(&mut notes, Note::Warning(s));
            },
            Line::Pair(k, v) => {
                cfg = apply_pair(keys, cfg, &mut notes, k.as_slice(), v.as_slice());
            },
        }
        i = i + 1;
    }
    proof {
        assert(all.take(ls.len() as int) =~= all);
    }
    (cfg, notes)
}

} // verus!
