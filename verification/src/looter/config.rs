//! The `[Looter]` section of the shared ini, and the looter's record-level
//! refusal.

use vstd::prelude::*;

use vstd::string::StringSliceAdditionalSpecFns;
use vstd::utf8::*;

use crate::gatherer::config::{unknown_warning, unknown_warning_exec};
use crate::keys::{keys_view, vk_from_name, vk_lookup};
use crate::ini::{lemma_section_lines_valid, line_valid, lines_in_section, lines_view, parse_bool, section_lines_spec, truthy, Line, SpecLine};
use crate::strings::{
    debug_quoted, debug_str, dec_spec, lemma_ascii_encode, lemma_dec_ascii, lit, push_dec, push_str, str_eq, string_of, utf8_string,
};
use crate::text::{eq_ic, eq_ic_exec, lower, parse_i32, parse_i32_at, parse_u32, parse_u32_at, push_all};

verus! {

/// The water well's bucket record: the looter must never forge a pickup at
/// it, because a pickup delivered outside the game's own crank sequence
/// leaves the well permanently empty.
pub const WELL_BUCKET_RECORD_KEY: u32 = 1001081;

/// The same record by name, for when the header's key did not read.
pub const WELL_BUCKET_RECORD_NAME: &'static str = "gimmick_well_0001_parts01";

/// Whether the looter must refuse to forge a pickup at this record, whatever
/// the family switches say. Either identifier is enough on its own.
pub fn never_forge_pickup(record_key: Option<u32>, record_name: Option<&str>) -> (r: bool)
    ensures
        r == (record_key == Some(WELL_BUCKET_RECORD_KEY) || (record_name matches Some(n) && n@
            == WELL_BUCKET_RECORD_NAME@)),
{
    if record_key == Some(WELL_BUCKET_RECORD_KEY) {
        return true;
    }
    match record_name {
        Some(n) => str_eq(n, WELL_BUCKET_RECORD_NAME),
        None => false,
    }
}


// ---------------------------------------------------------------------------
// The [Looter] settings
// ---------------------------------------------------------------------------

/// The `[Header]` of the shared ini that belongs to the looter.
pub const INI_SECTION: &'static str = "Looter";

/// The two millisecond keys' accepted range.
pub const MS_MIN: u32 = 100;
pub const MS_MAX: u32 = 60_000;
/// `StackLimit`'s accepted range.
pub const STACK_LIMIT_MIN: u32 = 10;
pub const STACK_LIMIT_MAX: u32 = 1_000_000;
/// `SurveyLines`' accepted range.
pub const SURVEY_LINES_MIN: u32 = 16;
pub const SURVEY_LINES_MAX: u32 = 2_000;

/// The looter's settings that are whole numbers, switches and key codes.
/// The two radii (`ScanRange`, `GatherRange`) are decimals: `parse` hands
/// those back as raw text, in file order, for the caller to convert.
#[derive(Debug, Clone, Copy, PartialEq, Eq, Structural)]
pub struct Config {
    pub enabled: bool,
    pub debug: bool,
    pub log_received: bool,
    pub survey_lines: u32,
    pub auto_gather: bool,
    pub gather_unarmed: bool,
    pub gather_items: bool,
    pub gather_gear: bool,
    pub gather_foraging: bool,
    pub gather_logging: bool,
    pub gather_mining: bool,
    pub gather_ore: bool,
    pub gather_money: bool,
    pub gather_bugs: bool,
    pub gather_fish: bool,
    pub stack_limit: u32,
    pub bag_tab: Option<i16>,
    pub gather_interval_ms: u32,
    pub node_cooldown_ms: u32,
    pub key_toggle: u16,
    pub key_scan: u16,
    pub key_gather: u16,
    pub key_record: u16,
}

pub open spec fn default_spec() -> Config {
    Config {
        enabled: true,
        debug: false,
        log_received: false,
        survey_lines: 200,
        auto_gather: false,
        gather_unarmed: true,
        gather_items: true,
        gather_gear: false,
        gather_foraging: true,
        gather_logging: true,
        gather_mining: true,
        gather_ore: true,
        gather_money: false,
        gather_bugs: true,
        gather_fish: true,
        stack_limit: 999,
        bag_tab: Some(1),
        gather_interval_ms: 500,
        node_cooldown_ms: 8000,
        key_toggle: 0x79,
        key_scan: 0x7A,
        key_gather: 0x78,
        key_record: 0x76,
    }
}

impl Default for Config {
    fn default() -> (r: Self)
        ensures
            r == default_spec(),
    {
        Config {
            enabled: true,
            debug: false,
            log_received: false,
            survey_lines: 200,
            auto_gather: false,
            gather_unarmed: true,
            gather_items: true,
            gather_gear: false,
            gather_foraging: true,
            gather_logging: true,
            gather_mining: true,
            gather_ore: true,
            gather_money: false,
            gather_bugs: true,
            gather_fish: true,
            stack_limit: 999,
            bag_tab: Some(1),
            gather_interval_ms: 500,
            node_cooldown_ms: 8000,
            key_toggle: 0x79,
            key_scan: 0x7A,
            key_gather: 0x78,
            key_record: 0x76,
        }
    }
}

/// The gather families the looter switches on and off.
#[derive(Debug, Clone, Copy, PartialEq, Eq, Structural)]
pub enum Family {
    Foraging,
    Logging,
    Mining,
    Ore,
    Money,
}

pub open spec fn allows_family_spec(c: Config, f: Family) -> bool {
    match f {
        Family::Foraging => c.gather_foraging,
        Family::Logging => c.gather_logging,
        Family::Mining => c.gather_mining,
        Family::Ore => c.gather_ore,
        Family::Money => c.gather_money,
    }
}

impl Config {
    /// Whether gather nodes of this family are wanted. `never_forge_pickup`
    /// is decided before this and wins.
    pub fn allows_family(&self, f: Family) -> (r: bool)
        ensures
            r == allows_family_spec(*self, f),
    {
        match f {
            Family::Foraging => self.gather_foraging,
            Family::Logging => self.gather_logging,
            Family::Mining => self.gather_mining,
            Family::Ore => self.gather_ore,
            Family::Money => self.gather_money,
        }
    }
}

/// The on/off keys of the section.
#[derive(Debug, Clone, Copy, PartialEq, Eq, Structural)]
pub enum Flag {
    Enabled,
    Debug,
    LogReceived,
    AutoGather,
    GatherUnarmed,
    GatherItems,
    GatherGear,
    GatherForaging,
    GatherLogging,
    GatherMining,
    GatherOre,
    GatherMoney,
    GatherBugs,
    GatherFish,
}

pub open spec fn flag_key(k: Seq<u8>) -> Option<Flag> {
    if eq_ic(k, lit("enabled")) {
        Some(Flag::Enabled)
    } else if eq_ic(k, lit("debug")) {
        Some(Flag::Debug)
    } else if eq_ic(k, lit("logreceived")) {
        Some(Flag::LogReceived)
    } else if eq_ic(k, lit("autogather")) {
        Some(Flag::AutoGather)
    } else if eq_ic(k, lit("gatherunarmed")) {
        Some(Flag::GatherUnarmed)
    } else if eq_ic(k, lit("gatheritems")) {
        Some(Flag::GatherItems)
    } else if eq_ic(k, lit("gathergear")) {
        Some(Flag::GatherGear)
    } else if eq_ic(k, lit("gatherforaging")) {
        Some(Flag::GatherForaging)
    } else if eq_ic(k, lit("gatherlogging")) {
        Some(Flag::GatherLogging)
    } else if eq_ic(k, lit("gathermining")) {
        Some(Flag::GatherMining)
    } else if eq_ic(k, lit("gatherore")) {
        Some(Flag::GatherOre)
    } else if eq_ic(k, lit("gathermoney")) {
        Some(Flag::GatherMoney)
    } else if eq_ic(k, lit("gatherbugs")) {
        Some(Flag::GatherBugs)
    } else if eq_ic(k, lit("gatherfish")) {
        Some(Flag::GatherFish)
    } else {
        None
    }
}

pub open spec fn with_flag(c: Config, f: Flag, b: bool) -> Config {
    match f {
        Flag::Enabled => Config { enabled: b, ..c },
        Flag::Debug => Config { debug: b, ..c },
        Flag::LogReceived => Config { log_received: b, ..c },
        Flag::AutoGather => Config { auto_gather: b, ..c },
        Flag::GatherUnarmed => Config { gather_unarmed: b, ..c },
        Flag::GatherItems => Config { gather_items: b, ..c },
        Flag::GatherGear => Config { gather_gear: b, ..c },
        Flag::GatherForaging => Config { gather_foraging: b, ..c },
        Flag::GatherLogging => Config { gather_logging: b, ..c },
        Flag::GatherMining => Config { gather_mining: b, ..c },
        Flag::GatherOre => Config { gather_ore: b, ..c },
        Flag::GatherMoney => Config { gather_money: b, ..c },
        Flag::GatherBugs => Config { gather_bugs: b, ..c },
        Flag::GatherFish => Config { gather_fish: b, ..c },
    }
}

/// The keys whose value the caller converts: the two decimals.
#[derive(Debug, Clone, Copy, PartialEq, Eq, Structural)]
pub enum RawKey {
    ScanRange,
    GatherRange,
}

pub open spec fn raw_key(k: Seq<u8>) -> Option<RawKey> {
    if eq_ic(k, lit("scanrange")) {
        Some(RawKey::ScanRange)
    } else if eq_ic(k, lit("gatherrange")) {
        Some(RawKey::GatherRange)
    } else {
        None
    }
}

/// The four hotkeys.
#[derive(Debug, Clone, Copy, PartialEq, Eq, Structural)]
pub enum Hotkey {
    Toggle,
    Scan,
    Gather,
    Record,
}

pub open spec fn hotkey(k: Seq<u8>) -> Option<Hotkey> {
    if eq_ic(k, lit("keytoggle")) {
        Some(Hotkey::Toggle)
    } else if eq_ic(k, lit("keyscan")) {
        Some(Hotkey::Scan)
    } else if eq_ic(k, lit("keygather")) {
        Some(Hotkey::Gather)
    } else if eq_ic(k, lit("keyrecord")) {
        Some(Hotkey::Record)
    } else {
        None
    }
}

pub open spec fn with_hotkey(c: Config, h: Hotkey, vk: u16) -> Config {
    match h {
        Hotkey::Toggle => Config { key_toggle: vk, ..c },
        Hotkey::Scan => Config { key_scan: vk, ..c },
        Hotkey::Gather => Config { key_gather: vk, ..c },
        Hotkey::Record => Config { key_record: vk, ..c },
    }
}

/// `KeyScan: unknown key name "nope", keeping previous`.
pub open spec fn key_name_warning(k: Seq<u8>, v: Seq<u8>) -> Seq<u8> {
    (k + lit(": unknown key name ")) + dq(v) + lit(", keeping previous")
}

/// What reading the section leaves besides the config, in file order: a
/// ready-to-log warning, or a value (with its key as written) for the caller
/// to convert.
pub enum Note {
    Warning(String),
    Raw(RawKey, String, String),
}

pub enum NoteView {
    Warning(Seq<u8>),
    Raw(RawKey, Seq<u8>, Seq<u8>),
}

pub open spec fn note_v(n: Note) -> NoteView {
    match n {
        Note::Warning(s) => NoteView::Warning(encode_utf8(s@)),
        Note::Raw(r, k, v) => NoteView::Raw(r, encode_utf8(k@), encode_utf8(v@)),
    }
}

pub open spec fn notes_view(v: Seq<Note>) -> Seq<NoteView> {
    v.map_values(|n: Note| note_v(n))
}

/// A value as Rust's `{:?}` shows it.
pub open spec fn dq(v: Seq<u8>) -> Seq<u8> {
    encode_utf8(debug_str(decode_utf8(v)))
}

pub open spec fn survey_warning(v: Seq<u8>, keep: u32) -> Seq<u8> {
    lit("SurveyLines: bad value ") + dq(v) + (lit(", keeping ") + dec_spec(keep as nat))
}

pub open spec fn stack_warning(v: Seq<u8>, keep: u32) -> Seq<u8> {
    lit("StackLimit: bad value ") + dq(v) + (lit(", keeping ") + dec_spec(keep as nat))
}

pub open spec fn bag_tab_warning(v: Seq<u8>) -> Seq<u8> {
    lit("BagTab: bad value ") + dq(v) + lit(", keeping auto")
}

pub open spec fn ms_warning(k: Seq<u8>, v: Seq<u8>) -> Seq<u8> {
    (k + lit(": bad value ")) + dq(v) + lit(" (100..60000 ms), keeping default")
}

/// Rust's `str::parse::<i16>`.
pub open spec fn parse_i16(v: Seq<u8>) -> Option<i16> {
    match parse_i32(v) {
        Some(n) => if -32768 <= n <= 32767 {
            Some(n as i16)
        } else {
            None
        },
        None => None,
    }
}

/// One key and value's effect on the config and the notes.
pub open spec fn pair_step(keys: Seq<(Seq<u8>, u16)>, c: Config, w: Seq<NoteView>, k: Seq<u8>, v: Seq<u8>) -> (Config, Seq<NoteView>) {
    match flag_key(k) {
        Some(f) => (with_flag(c, f, truthy(v)), w),
        None => match raw_key(k) {
            Some(r) => (c, w.push(NoteView::Raw(r, k, v))),
            None => match hotkey(k) {
                Some(h) => match vk_lookup(keys, v) {
                    Some(vk) => (with_hotkey(c, h, vk), w),
                    None => (c, w.push(NoteView::Warning(key_name_warning(k, v)))),
                },
                None => number_step(c, w, k, v),
            },
        },
    }
}

pub open spec fn line_step(keys: Seq<(Seq<u8>, u16)>, acc: (Config, Seq<NoteView>), l: SpecLine) -> (Config, Seq<NoteView>) {
    match l {
        SpecLine::Bad(m) => (acc.0, acc.1.push(NoteView::Warning(m))),
        SpecLine::Pair(k, v) => pair_step(keys, acc.0, acc.1, k, v),
    }
}

pub open spec fn parse_lines(keys: Seq<(Seq<u8>, u16)>, ls: Seq<SpecLine>) -> (Config, Seq<NoteView>)
    decreases ls.len(),
{
    if ls.len() == 0 {
        (default_spec(), seq![])
    } else {
        line_step(keys, parse_lines(keys, ls.drop_last()), ls.last())
    }
}

/// What `parse` reads out of the shared ini: only the `[Looter]` section.
pub open spec fn parse_spec(text: &str, keys: Seq<(Seq<u8>, u16)>) -> (Config, Seq<NoteView>) {
    parse_lines(keys, section_lines_spec(text.spec_bytes(), lit(INI_SECTION)))
}

/// The bytes of the key names flag reads.
proof fn lemma_flag_name_bytes()
    ensures
        lit("enabled") == seq![0x65u8, 0x6E, 0x61, 0x62, 0x6C, 0x65, 0x64],
        lit("debug") == seq![0x64u8, 0x65, 0x62, 0x75, 0x67],
        lit("logreceived") == seq![0x6Cu8, 0x6F, 0x67, 0x72, 0x65, 0x63, 0x65, 0x69, 0x76, 0x65, 0x64],
        lit("autogather") == seq![0x61u8, 0x75, 0x74, 0x6F, 0x67, 0x61, 0x74, 0x68, 0x65, 0x72],
        lit("gatherunarmed") == seq![0x67u8, 0x61, 0x74, 0x68, 0x65, 0x72, 0x75, 0x6E, 0x61, 0x72, 0x6D, 0x65, 0x64],
        lit("gatheritems") == seq![0x67u8, 0x61, 0x74, 0x68, 0x65, 0x72, 0x69, 0x74, 0x65, 0x6D, 0x73],
        lit("gathergear") == seq![0x67u8, 0x61, 0x74, 0x68, 0x65, 0x72, 0x67, 0x65, 0x61, 0x72],
        lit("gatherforaging") == seq![0x67u8, 0x61, 0x74, 0x68, 0x65, 0x72, 0x66, 0x6F, 0x72, 0x61, 0x67, 0x69, 0x6E, 0x67],
        lit("gatherlogging") == seq![0x67u8, 0x61, 0x74, 0x68, 0x65, 0x72, 0x6C, 0x6F, 0x67, 0x67, 0x69, 0x6E, 0x67],
        lit("gathermining") == seq![0x67u8, 0x61, 0x74, 0x68, 0x65, 0x72, 0x6D, 0x69, 0x6E, 0x69, 0x6E, 0x67],
        lit("gatherore") == seq![0x67u8, 0x61, 0x74, 0x68, 0x65, 0x72, 0x6F, 0x72, 0x65],
        lit("gathermoney") == seq![0x67u8, 0x61, 0x74, 0x68, 0x65, 0x72, 0x6D, 0x6F, 0x6E, 0x65, 0x79],
        lit("gatherbugs") == seq![0x67u8, 0x61, 0x74, 0x68, 0x65, 0x72, 0x62, 0x75, 0x67, 0x73],
        lit("gatherfish") == seq![0x67u8, 0x61, 0x74, 0x68, 0x65, 0x72, 0x66, 0x69, 0x73, 0x68],
{
    reveal_strlit("enabled");
    assert(lit("enabled") =~= seq![0x65u8, 0x6E, 0x61, 0x62, 0x6C, 0x65, 0x64]) by {
        broadcast use vstd::string::group_string_axioms;
        assert("enabled".is_ascii());
    }
    reveal_strlit("debug");
    assert(lit("debug") =~= seq![0x64u8, 0x65, 0x62, 0x75, 0x67]) by {
        broadcast use vstd::string::group_string_axioms;
        assert("debug".is_ascii());
    }
    reveal_strlit("logreceived");
    assert(lit("logreceived") =~= seq![0x6Cu8, 0x6F, 0x67, 0x72, 0x65, 0x63, 0x65, 0x69, 0x76, 0x65, 0x64]) by {
        broadcast use vstd::string::group_string_axioms;
        assert("logreceived".is_ascii());
    }
    reveal_strlit("autogather");
    assert(lit("autogather") =~= seq![0x61u8, 0x75, 0x74, 0x6F, 0x67, 0x61, 0x74, 0x68, 0x65, 0x72]) by {
        broadcast use vstd::string::group_string_axioms;
        assert("autogather".is_ascii());
    }
    reveal_strlit("gatherunarmed");
    assert(lit("gatherunarmed") =~= seq![0x67u8, 0x61, 0x74, 0x68, 0x65, 0x72, 0x75, 0x6E, 0x61, 0x72, 0x6D, 0x65, 0x64]) by {
        broadcast use vstd::string::group_string_axioms;
        assert("gatherunarmed".is_ascii());
    }
    reveal_strlit("gatheritems");
    assert(lit("gatheritems") =~= seq![0x67u8, 0x61, 0x74, 0x68, 0x65, 0x72, 0x69, 0x74, 0x65, 0x6D, 0x73]) by {
        broadcast use vstd::string::group_string_axioms;
        assert("gatheritems".is_ascii());
    }
    reveal_strlit("gathergear");
    assert(lit("gathergear") =~= seq![0x67u8, 0x61, 0x74, 0x68, 0x65, 0x72, 0x67, 0x65, 0x61, 0x72]) by {
        broadcast use vstd::string::group_string_axioms;
        assert("gathergear".is_ascii());
    }
    reveal_strlit("gatherforaging");
    assert(lit("gatherforaging") =~= seq![0x67u8, 0x61, 0x74, 0x68, 0x65, 0x72, 0x66, 0x6F, 0x72, 0x61, 0x67, 0x69, 0x6E, 0x67]) by {
        broadcast use vstd::string::group_string_axioms;
        assert("gatherforaging".is_ascii());
    }
    reveal_strlit("gatherlogging");
    assert(lit("gatherlogging") =~= seq![0x67u8, 0x61, 0x74, 0x68, 0x65, 0x72, 0x6C, 0x6F, 0x67, 0x67, 0x69, 0x6E, 0x67]) by {
        broadcast use vstd::string::group_string_axioms;
        assert("gatherlogging".is_ascii());
    }
    reveal_strlit("gathermining");
    assert(lit("gathermining") =~= seq![0x67u8, 0x61, 0x74, 0x68, 0x65, 0x72, 0x6D, 0x69, 0x6E, 0x69, 0x6E, 0x67]) by {
        broadcast use vstd::string::group_string_axioms;
        assert("gathermining".is_ascii());
    }
    reveal_strlit("gatherore");
    assert(lit("gatherore") =~= seq![0x67u8, 0x61, 0x74, 0x68, 0x65, 0x72, 0x6F, 0x72, 0x65]) by {
        broadcast use vstd::string::group_string_axioms;
        assert("gatherore".is_ascii());
    }
    reveal_strlit("gathermoney");
    assert(lit("gathermoney") =~= seq![0x67u8, 0x61, 0x74, 0x68, 0x65, 0x72, 0x6D, 0x6F, 0x6E, 0x65, 0x79]) by {
        broadcast use vstd::string::group_string_axioms;
        assert("gathermoney".is_ascii());
    }
    reveal_strlit("gatherbugs");
    assert(lit("gatherbugs") =~= seq![0x67u8, 0x61, 0x74, 0x68, 0x65, 0x72, 0x62, 0x75, 0x67, 0x73]) by {
        broadcast use vstd::string::group_string_axioms;
        assert("gatherbugs".is_ascii());
    }
    reveal_strlit("gatherfish");
    assert(lit("gatherfish") =~= seq![0x67u8, 0x61, 0x74, 0x68, 0x65, 0x72, 0x66, 0x69, 0x73, 0x68]) by {
        broadcast use vstd::string::group_string_axioms;
        assert("gatherfish".is_ascii());
    }
}

/// No key matches two of the names flag reads, ignoring ASCII case.
proof fn lemma_flag_names_apart(k: Seq<u8>)
    ensures
        eq_ic(k, lit("enabled")) ==> !eq_ic(k, lit("debug")),
        eq_ic(k, lit("enabled")) ==> !eq_ic(k, lit("logreceived")),
        eq_ic(k, lit("enabled")) ==> !eq_ic(k, lit("autogather")),
        eq_ic(k, lit("enabled")) ==> !eq_ic(k, lit("gatherunarmed")),
        eq_ic(k, lit("enabled")) ==> !eq_ic(k, lit("gatheritems")),
        eq_ic(k, lit("enabled")) ==> !eq_ic(k, lit("gathergear")),
        eq_ic(k, lit("enabled")) ==> !eq_ic(k, lit("gatherforaging")),
        eq_ic(k, lit("enabled")) ==> !eq_ic(k, lit("gatherlogging")),
        eq_ic(k, lit("enabled")) ==> !eq_ic(k, lit("gathermining")),
        eq_ic(k, lit("enabled")) ==> !eq_ic(k, lit("gatherore")),
        eq_ic(k, lit("enabled")) ==> !eq_ic(k, lit("gathermoney")),
        eq_ic(k, lit("enabled")) ==> !eq_ic(k, lit("gatherbugs")),
        eq_ic(k, lit("enabled")) ==> !eq_ic(k, lit("gatherfish")),
        eq_ic(k, lit("debug")) ==> !eq_ic(k, lit("logreceived")),
        eq_ic(k, lit("debug")) ==> !eq_ic(k, lit("autogather")),
        eq_ic(k, lit("debug")) ==> !eq_ic(k, lit("gatherunarmed")),
        eq_ic(k, lit("debug")) ==> !eq_ic(k, lit("gatheritems")),
        eq_ic(k, lit("debug")) ==> !eq_ic(k, lit("gathergear")),
        eq_ic(k, lit("debug")) ==> !eq_ic(k, lit("gatherforaging")),
        eq_ic(k, lit("debug")) ==> !eq_ic(k, lit("gatherlogging")),
        eq_ic(k, lit("debug")) ==> !eq_ic(k, lit("gathermining")),
        eq_ic(k, lit("debug")) ==> !eq_ic(k, lit("gatherore")),
        eq_ic(k, lit("debug")) ==> !eq_ic(k, lit("gathermoney")),
        eq_ic(k, lit("debug")) ==> !eq_ic(k, lit("gatherbugs")),
        eq_ic(k, lit("debug")) ==> !eq_ic(k, lit("gatherfish")),
        eq_ic(k, lit("logreceived")) ==> !eq_ic(k, lit("autogather")),
        eq_ic(k, lit("logreceived")) ==> !eq_ic(k, lit("gatherunarmed")),
        eq_ic(k, lit("logreceived")) ==> !eq_ic(k, lit("gatheritems")),
        eq_ic(k, lit("logreceived")) ==> !eq_ic(k, lit("gathergear")),
        eq_ic(k, lit("logreceived")) ==> !eq_ic(k, lit("gatherforaging")),
        eq_ic(k, lit("logreceived")) ==> !eq_ic(k, lit("gatherlogging")),
        eq_ic(k, lit("logreceived")) ==> !eq_ic(k, lit("gathermining")),
        eq_ic(k, lit("logreceived")) ==> !eq_ic(k, lit("gatherore")),
        eq_ic(k, lit("logreceived")) ==> !eq_ic(k, lit("gathermoney")),
        eq_ic(k, lit("logreceived")) ==> !eq_ic(k, lit("gatherbugs")),
        eq_ic(k, lit("logreceived")) ==> !eq_ic(k, lit("gatherfish")),
        eq_ic(k, lit("autogather")) ==> !eq_ic(k, lit("gatherunarmed")),
        eq_ic(k, lit("autogather")) ==> !eq_ic(k, lit("gatheritems")),
        eq_ic(k, lit("autogather")) ==> !eq_ic(k, lit("gathergear")),
        eq_ic(k, lit("autogather")) ==> !eq_ic(k, lit("gatherforaging")),
        eq_ic(k, lit("autogather")) ==> !eq_ic(k, lit("gatherlogging")),
        eq_ic(k, lit("autogather")) ==> !eq_ic(k, lit("gathermining")),
        eq_ic(k, lit("autogather")) ==> !eq_ic(k, lit("gatherore")),
        eq_ic(k, lit("autogather")) ==> !eq_ic(k, lit("gathermoney")),
        eq_ic(k, lit("autogather")) ==> !eq_ic(k, lit("gatherbugs")),
        eq_ic(k, lit("autogather")) ==> !eq_ic(k, lit("gatherfish")),
        eq_ic(k, lit("gatherunarmed")) ==> !eq_ic(k, lit("gatheritems")),
        eq_ic(k, lit("gatherunarmed")) ==> !eq_ic(k, lit("gathergear")),
        eq_ic(k, lit("gatherunarmed")) ==> !eq_ic(k, lit("gatherforaging")),
        eq_ic(k, lit("gatherunarmed")) ==> !eq_ic(k, lit("gatherlogging")),
        eq_ic(k, lit("gatherunarmed")) ==> !eq_ic(k, lit("gathermining")),
        eq_ic(k, lit("gatherunarmed")) ==> !eq_ic(k, lit("gatherore")),
        eq_ic(k, lit("gatherunarmed")) ==> !eq_ic(k, lit("gathermoney")),
        eq_ic(k, lit("gatherunarmed")) ==> !eq_ic(k, lit("gatherbugs")),
        eq_ic(k, lit("gatherunarmed")) ==> !eq_ic(k, lit("gatherfish")),
        eq_ic(k, lit("gatheritems")) ==> !eq_ic(k, lit("gathergear")),
        eq_ic(k, lit("gatheritems")) ==> !eq_ic(k, lit("gatherforaging")),
        eq_ic(k, lit("gatheritems")) ==> !eq_ic(k, lit("gatherlogging")),
        eq_ic(k, lit("gatheritems")) ==> !eq_ic(k, lit("gathermining")),
        eq_ic(k, lit("gatheritems")) ==> !eq_ic(k, lit("gatherore")),
        eq_ic(k, lit("gatheritems")) ==> !eq_ic(k, lit("gathermoney")),
        eq_ic(k, lit("gatheritems")) ==> !eq_ic(k, lit("gatherbugs")),
        eq_ic(k, lit("gatheritems")) ==> !eq_ic(k, lit("gatherfish")),
        eq_ic(k, lit("gathergear")) ==> !eq_ic(k, lit("gatherforaging")),
        eq_ic(k, lit("gathergear")) ==> !eq_ic(k, lit("gatherlogging")),
        eq_ic(k, lit("gathergear")) ==> !eq_ic(k, lit("gathermining")),
        eq_ic(k, lit("gathergear")) ==> !eq_ic(k, lit("gatherore")),
        eq_ic(k, lit("gathergear")) ==> !eq_ic(k, lit("gathermoney")),
        eq_ic(k, lit("gathergear")) ==> !eq_ic(k, lit("gatherbugs")),
        eq_ic(k, lit("gathergear")) ==> !eq_ic(k, lit("gatherfish")),
        eq_ic(k, lit("gatherforaging")) ==> !eq_ic(k, lit("gatherlogging")),
        eq_ic(k, lit("gatherforaging")) ==> !eq_ic(k, lit("gathermining")),
        eq_ic(k, lit("gatherforaging")) ==> !eq_ic(k, lit("gatherore")),
        eq_ic(k, lit("gatherforaging")) ==> !eq_ic(k, lit("gathermoney")),
        eq_ic(k, lit("gatherforaging")) ==> !eq_ic(k, lit("gatherbugs")),
        eq_ic(k, lit("gatherforaging")) ==> !eq_ic(k, lit("gatherfish")),
        eq_ic(k, lit("gatherlogging")) ==> !eq_ic(k, lit("gathermining")),
        eq_ic(k, lit("gatherlogging")) ==> !eq_ic(k, lit("gatherore")),
        eq_ic(k, lit("gatherlogging")) ==> !eq_ic(k, lit("gathermoney")),
        eq_ic(k, lit("gatherlogging")) ==> !eq_ic(k, lit("gatherbugs")),
        eq_ic(k, lit("gatherlogging")) ==> !eq_ic(k, lit("gatherfish")),
        eq_ic(k, lit("gathermining")) ==> !eq_ic(k, lit("gatherore")),
        eq_ic(k, lit("gathermining")) ==> !eq_ic(k, lit("gathermoney")),
        eq_ic(k, lit("gathermining")) ==> !eq_ic(k, lit("gatherbugs")),
        eq_ic(k, lit("gathermining")) ==> !eq_ic(k, lit("gatherfish")),
        eq_ic(k, lit("gatherore")) ==> !eq_ic(k, lit("gathermoney")),
        eq_ic(k, lit("gatherore")) ==> !eq_ic(k, lit("gatherbugs")),
        eq_ic(k, lit("gatherore")) ==> !eq_ic(k, lit("gatherfish")),
        eq_ic(k, lit("gathermoney")) ==> !eq_ic(k, lit("gatherbugs")),
        eq_ic(k, lit("gathermoney")) ==> !eq_ic(k, lit("gatherfish")),
        eq_ic(k, lit("gatherbugs")) ==> !eq_ic(k, lit("gatherfish")),
{
    lemma_flag_name_bytes();
    if eq_ic(k, lit("logreceived")) && eq_ic(k, lit("gatheritems")) {
        assert(lower(k[0]) == lower(lit("logreceived")[0]));
        assert(lower(k[0]) == lower(lit("gatheritems")[0]));
    }
    if eq_ic(k, lit("logreceived")) && eq_ic(k, lit("gathermoney")) {
        assert(lower(k[0]) == lower(lit("logreceived")[0]));
        assert(lower(k[0]) == lower(lit("gathermoney")[0]));
    }
    if eq_ic(k, lit("autogather")) && eq_ic(k, lit("gathergear")) {
        assert(lower(k[0]) == lower(lit("autogather")[0]));
        assert(lower(k[0]) == lower(lit("gathergear")[0]));
    }
    if eq_ic(k, lit("autogather")) && eq_ic(k, lit("gatherbugs")) {
        assert(lower(k[0]) == lower(lit("autogather")[0]));
        assert(lower(k[0]) == lower(lit("gatherbugs")[0]));
    }
    if eq_ic(k, lit("autogather")) && eq_ic(k, lit("gatherfish")) {
        assert(lower(k[0]) == lower(lit("autogather")[0]));
        assert(lower(k[0]) == lower(lit("gatherfish")[0]));
    }
    if eq_ic(k, lit("gatherunarmed")) && eq_ic(k, lit("gatherlogging")) {
        assert(lower(k[6]) == lower(lit("gatherunarmed")[6]));
        assert(lower(k[6]) == lower(lit("gatherlogging")[6]));
    }
    if eq_ic(k, lit("gatheritems")) && eq_ic(k, lit("gathermoney")) {
        assert(lower(k[6]) == lower(lit("gatheritems")[6]));
        assert(lower(k[6]) == lower(lit("gathermoney")[6]));
    }
    if eq_ic(k, lit("gathergear")) && eq_ic(k, lit("gatherbugs")) {
        assert(lower(k[6]) == lower(lit("gathergear")[6]));
        assert(lower(k[6]) == lower(lit("gatherbugs")[6]));
    }
    if eq_ic(k, lit("gathergear")) && eq_ic(k, lit("gatherfish")) {
        assert(lower(k[6]) == lower(lit("gathergear")[6]));
        assert(lower(k[6]) == lower(lit("gatherfish")[6]));
    }
    if eq_ic(k, lit("gatherbugs")) && eq_ic(k, lit("gatherfish")) {
        assert(lower(k[6]) == lower(lit("gatherbugs")[6]));
        assert(lower(k[6]) == lower(lit("gatherfish")[6]));
    }
}


/// A switch line sets its own switch, and nothing else: whatever came
/// before, a `[Looter]` line whose key names a switch (ignoring ASCII case)
/// leaves the config as it was but for that switch, which becomes whether
/// the value is one of the truthy spellings, and adds no note.
pub proof fn lemma_switch_line_sets_its_switch(keys: Seq<(Seq<u8>, u16)>, ls: Seq<SpecLine>, k: Seq<u8>, v: Seq<u8>)
    ensures
        ({
            let before = parse_lines(keys, ls);
            let after = parse_lines(keys, ls.push(SpecLine::Pair(k, v)));
            &&& eq_ic(k, lit("enabled")) ==> after == (Config { enabled: truthy(v), ..before.0 }, before.1)
            &&& eq_ic(k, lit("debug")) ==> after == (Config { debug: truthy(v), ..before.0 }, before.1)
            &&& eq_ic(k, lit("logreceived")) ==> after == (Config { log_received: truthy(v), ..before.0 }, before.1)
            &&& eq_ic(k, lit("autogather")) ==> after == (Config { auto_gather: truthy(v), ..before.0 }, before.1)
            &&& eq_ic(k, lit("gatherunarmed")) ==> after == (Config { gather_unarmed: truthy(v), ..before.0 }, before.1)
            &&& eq_ic(k, lit("gatheritems")) ==> after == (Config { gather_items: truthy(v), ..before.0 }, before.1)
            &&& eq_ic(k, lit("gathergear")) ==> after == (Config { gather_gear: truthy(v), ..before.0 }, before.1)
            &&& eq_ic(k, lit("gatherforaging")) ==> after == (Config { gather_foraging: truthy(v), ..before.0 }, before.1)
            &&& eq_ic(k, lit("gatherlogging")) ==> after == (Config { gather_logging: truthy(v), ..before.0 }, before.1)
            &&& eq_ic(k, lit("gathermining")) ==> after == (Config { gather_mining: truthy(v), ..before.0 }, before.1)
            &&& eq_ic(k, lit("gatherore")) ==> after == (Config { gather_ore: truthy(v), ..before.0 }, before.1)
            &&& eq_ic(k, lit("gathermoney")) ==> after == (Config { gather_money: truthy(v), ..before.0 }, before.1)
            &&& eq_ic(k, lit("gatherbugs")) ==> after == (Config { gather_bugs: truthy(v), ..before.0 }, before.1)
            &&& eq_ic(k, lit("gatherfish")) ==> after == (Config { gather_fish: truthy(v), ..before.0 }, before.1)
        }),
{
    assert(ls.push(SpecLine::Pair(k, v)).drop_last() =~= ls);
    lemma_flag_names_apart(k);
}

pub(crate) proof fn lemma_lit_valid(s: &str)
    ensures
        valid_utf8(s.spec_bytes()),
{
    encode_utf8_valid_utf8(s@);
}

/// `pre`, the value as `{:?}` shows it, and `post`.
pub(crate) fn quoted_between(pre: &[u8], v: &[u8], post: &[u8]) -> (r: String)
    requires
        valid_utf8(pre@),
        valid_utf8(v@),
        valid_utf8(post@),
    ensures
        encode_utf8(r@) == pre@ + dq(v@) + post@,
{
    let vs = string_of(v);
    proof {
        decode_utf8_encode_utf8(v@);
        encode_utf8_decode_utf8(vs@);
    }
    let d = debug_quoted(vs.as_str());
    let mut out: Vec<u8> = Vec::new();
    push_all(&mut out, pre);
    push_str(&mut out, d.as_str());
    push_all(&mut out, post);
    proof {
        assert(vs@ == decode_utf8(v@));
        encode_utf8_valid_utf8(d@);
        let e = encode_utf8(d@);
        assert(out@ =~= pre@ + e + post@);
        valid_utf8_concat(pre@, e);
        valid_utf8_concat(pre@ + e, post@);
    }
    utf8_string(out)
}

/// `", keeping N"`.
fn keeping(n: u32) -> (r: Vec<u8>)
    ensures
        r@ == lit(", keeping ") + dec_spec(n as nat),
        valid_utf8(r@),
{
    let mut out: Vec<u8> = Vec::new();
    push_str(&mut out, ", keeping ");
    push_dec(&mut out, n as u64);
    proof {
        lemma_lit_valid(", keeping ");
        lemma_dec_ascii(n as nat);
        lemma_ascii_encode(dec_spec(n as nat));
        valid_utf8_concat(lit(", keeping "), dec_spec(n as nat));
    }
    out
}

fn flag_key_exec(k: &[u8]) -> (r: Option<Flag>)
    ensures
        r == flag_key(k@),
{
    if eq_ic_exec(k, "enabled".as_bytes()) {
        Some(Flag::Enabled)
    } else if eq_ic_exec(k, "debug".as_bytes()) {
        Some(Flag::Debug)
    } else if eq_ic_exec(k, "logreceived".as_bytes()) {
        Some(Flag::LogReceived)
    } else if eq_ic_exec(k, "autogather".as_bytes()) {
        Some(Flag::AutoGather)
    } else if eq_ic_exec(k, "gatherunarmed".as_bytes()) {
        Some(Flag::GatherUnarmed)
    } else if eq_ic_exec(k, "gatheritems".as_bytes()) {
        Some(Flag::GatherItems)
    } else if eq_ic_exec(k, "gathergear".as_bytes()) {
        Some(Flag::GatherGear)
    } else if eq_ic_exec(k, "gatherforaging".as_bytes()) {
        Some(Flag::GatherForaging)
    } else if eq_ic_exec(k, "gatherlogging".as_bytes()) {
        Some(Flag::GatherLogging)
    } else if eq_ic_exec(k, "gathermining".as_bytes()) {
        Some(Flag::GatherMining)
    } else if eq_ic_exec(k, "gatherore".as_bytes()) {
        Some(Flag::GatherOre)
    } else if eq_ic_exec(k, "gathermoney".as_bytes()) {
        Some(Flag::GatherMoney)
    } else if eq_ic_exec(k, "gatherbugs".as_bytes()) {
        Some(Flag::GatherBugs)
    } else if eq_ic_exec(k, "gatherfish".as_bytes()) {
        Some(Flag::GatherFish)
    } else {
        None
    }
}

fn hotkey_exec(k: &[u8]) -> (r: Option<Hotkey>)
    ensures
        r == hotkey(k@),
{
    if eq_ic_exec(k, "keytoggle".as_bytes()) {
        Some(Hotkey::Toggle)
    } else if eq_ic_exec(k, "keyscan".as_bytes()) {
        Some(Hotkey::Scan)
    } else if eq_ic_exec(k, "keygather".as_bytes()) {
        Some(Hotkey::Gather)
    } else if eq_ic_exec(k, "keyrecord".as_bytes()) {
        Some(Hotkey::Record)
    } else {
        None
    }
}

fn with_hotkey_exec(c: Config, h: Hotkey, vk: u16) -> (r: Config)
    ensures
        r == with_hotkey(c, h, vk),
{
    match h {
        Hotkey::Toggle => Config { key_toggle: vk, ..c },
        Hotkey::Scan => Config { key_scan: vk, ..c },
        Hotkey::Gather => Config { key_gather: vk, ..c },
        Hotkey::Record => Config { key_record: vk, ..c },
    }
}

fn raw_key_exec(k: &[u8]) -> (r: Option<RawKey>)
    ensures
        r == raw_key(k@),
{
    if eq_ic_exec(k, "scanrange".as_bytes()) {
        Some(RawKey::ScanRange)
    } else if eq_ic_exec(k, "gatherrange".as_bytes()) {
        Some(RawKey::GatherRange)
    } else {
        None
    }
}

fn with_flag_exec(c: Config, f: Flag, b: bool) -> (r: Config)
    ensures
        r == with_flag(c, f, b),
{
    match f {
        Flag::Enabled => Config { enabled: b, ..c },
        Flag::Debug => Config { debug: b, ..c },
        Flag::LogReceived => Config { log_received: b, ..c },
        Flag::AutoGather => Config { auto_gather: b, ..c },
        Flag::GatherUnarmed => Config { gather_unarmed: b, ..c },
        Flag::GatherItems => Config { gather_items: b, ..c },
        Flag::GatherGear => Config { gather_gear: b, ..c },
        Flag::GatherForaging => Config { gather_foraging: b, ..c },
        Flag::GatherLogging => Config { gather_logging: b, ..c },
        Flag::GatherMining => Config { gather_mining: b, ..c },
        Flag::GatherOre => Config { gather_ore: b, ..c },
        Flag::GatherMoney => Config { gather_money: b, ..c },
        Flag::GatherBugs => Config { gather_bugs: b, ..c },
        Flag::GatherFish => Config { gather_fish: b, ..c },
    }
}

fn push_note(notes: &mut Vec<Note>, n: Note)
    ensures
        notes_view(final(notes)@) == notes_view(old(notes)@).push(note_v(n)),
{
    let ghost before = notes@;
    notes.push(n);
    proof {
        assert(notes_view(notes@) =~= notes_view(before).push(note_v(n)));
    }
}

/// A number key's value, the whole of it.
fn whole_u32(v: &[u8]) -> (r: Option<u32>)
    ensures
        r == parse_u32(v@),
{
    proof {
        assert(v@.subrange(0, v@.len() as int) =~= v@);
    }
    parse_u32_at(v, 0, v.len())
}

pub open spec fn survey_step(c: Config, w: Seq<NoteView>, v: Seq<u8>) -> (Config, Seq<NoteView>) {
    match parse_u32(v) {
        Some(n) if SURVEY_LINES_MIN <= n <= SURVEY_LINES_MAX => (Config { survey_lines: n, ..c }, w),
        _ => (c, w.push(NoteView::Warning(survey_warning(v, c.survey_lines)))),
    }
}

pub open spec fn stack_step(c: Config, w: Seq<NoteView>, v: Seq<u8>) -> (Config, Seq<NoteView>) {
    match parse_u32(v) {
        Some(n) if STACK_LIMIT_MIN <= n <= STACK_LIMIT_MAX => (Config { stack_limit: n, ..c }, w),
        _ => (c, w.push(NoteView::Warning(stack_warning(v, c.stack_limit)))),
    }
}

/// A non-negative id is the bag tab, a negative one means the largest tab.
pub open spec fn bag_step(c: Config, w: Seq<NoteView>, v: Seq<u8>) -> (Config, Seq<NoteView>) {
    match parse_i16(v) {
        Some(id) => (Config { bag_tab: if id >= 0 { Some(id) } else { None }, ..c }, w),
        None => (c, w.push(NoteView::Warning(bag_tab_warning(v)))),
    }
}

pub open spec fn ms_step(c: Config, w: Seq<NoteView>, k: Seq<u8>, v: Seq<u8>) -> (Config, Seq<NoteView>) {
    match parse_u32(v) {
        Some(ms) if MS_MIN <= ms <= MS_MAX => if eq_ic(k, lit("gatherinterval")) {
            (Config { gather_interval_ms: ms, ..c }, w)
        } else {
            (Config { node_cooldown_ms: ms, ..c }, w)
        },
        _ => (c, w.push(NoteView::Warning(ms_warning(k, v)))),
    }
}

/// `pair_step` past the switches and the raw keys.
pub open spec fn number_step(c: Config, w: Seq<NoteView>, k: Seq<u8>, v: Seq<u8>) -> (Config, Seq<NoteView>) {
    if eq_ic(k, lit("surveylines")) {
        survey_step(c, w, v)
    } else if eq_ic(k, lit("stacklimit")) {
        stack_step(c, w, v)
    } else if eq_ic(k, lit("bagtab")) {
        bag_step(c, w, v)
    } else if eq_ic(k, lit("gatherinterval")) || eq_ic(k, lit("nodecooldown")) {
        ms_step(c, w, k, v)
    } else {
        (c, w.push(NoteView::Warning(unknown_warning(k))))
    }
}

fn apply_pair(keys: &[(String, u16)], c: Config, notes: &mut Vec<Note>, k: &[u8], v: &[u8]) -> (r: Config)
    requires
        valid_utf8(k@),
        valid_utf8(v@),
    ensures
        r == pair_step(keys_view(keys@), c, notes_view(old(notes)@), k@, v@).0,
        notes_view(final(notes)@) == pair_step(keys_view(keys@), c, notes_view(old(notes)@), k@, v@).1,
{
    if let Some(f) = flag_key_exec(k) {
        return with_flag_exec(c, f, parse_bool(v));
    }
    if let Some(rk) = raw_key_exec(k) {
        let ks = string_of(k);
        let vs = string_of(v);
        push_note(notes, Note::Raw(rk, ks, vs));
        return c;
    }
    if let Some(h) = hotkey_exec(k) {
        return match vk_from_name(keys, v) {
            Some(vk) => with_hotkey_exec(c, h, vk),
            None => {
                let mut pre: Vec<u8> = Vec::new();
                push_all(&mut pre, k);
                push_str(&mut pre, ": unknown key name ");
                proof {
                    lemma_lit_valid(": unknown key name ");
                    lemma_lit_valid(", keeping previous");
                    valid_utf8_concat(k@, lit(": unknown key name "));
                }
                let w = quoted_between(pre.as_slice(), v, ", keeping previous".as_bytes());
                push_note(notes, Note::Warning(w));
                c
            },
        };
    }
    apply_number(c, notes, k, v)
}

fn apply_survey(c: Config, notes: &mut Vec<Note>, v: &[u8]) -> (r: Config)
    requires
        valid_utf8(v@),
    ensures
        r == survey_step(c, notes_view(old(notes)@), v@).0,
        notes_view(final(notes)@) == survey_step(c, notes_view(old(notes)@), v@).1,
{
    match whole_u32(v) {
        Some(n) if SURVEY_LINES_MIN <= n && n <= SURVEY_LINES_MAX => Config { survey_lines: n, ..c },
        _ => {
            proof {
                lemma_lit_valid("SurveyLines: bad value ");
            }
            let post = keeping(c.survey_lines);
            let w = quoted_between("SurveyLines: bad value ".as_bytes(), v, post.as_slice());
            push_note(notes, Note::Warning(w));
            c
        },
    }
}

fn apply_stack(c: Config, notes: &mut Vec<Note>, v: &[u8]) -> (r: Config)
    requires
        valid_utf8(v@),
    ensures
        r == stack_step(c, notes_view(old(notes)@), v@).0,
        notes_view(final(notes)@) == stack_step(c, notes_view(old(notes)@), v@).1,
{
    match whole_u32(v) {
        Some(n) if STACK_LIMIT_MIN <= n && n <= STACK_LIMIT_MAX => Config { stack_limit: n, ..c },
        _ => {
            proof {
                lemma_lit_valid("StackLimit: bad value ");
            }
            let post = keeping(c.stack_limit);
            let w = quoted_between("StackLimit: bad value ".as_bytes(), v, post.as_slice());
            push_note(notes, Note::Warning(w));
            c
        },
    }
}

fn apply_bag_tab(c: Config, notes: &mut Vec<Note>, v: &[u8]) -> (r: Config)
    requires
        valid_utf8(v@),
    ensures
        r == bag_step(c, notes_view(old(notes)@), v@).0,
        notes_view(final(notes)@) == bag_step(c, notes_view(old(notes)@), v@).1,
{
    proof {
        assert(v@.subrange(0, v@.len() as int) =~= v@);
    }
    match parse_i32_at(v, 0, v.len()) {
        Some(n) if -32768 <= n && n <= 32767 => {
            let id = n as i16;
            Config { bag_tab: if id >= 0 { Some(id) } else { None }, ..c }
        },
        _ => {
            proof {
                lemma_lit_valid("BagTab: bad value ");
                lemma_lit_valid(", keeping auto");
            }
            let w = quoted_between("BagTab: bad value ".as_bytes(), v, ", keeping auto".as_bytes());
            push_note(notes, Note::Warning(w));
            c
        },
    }
}

fn apply_ms(c: Config, notes: &mut Vec<Note>, k: &[u8], v: &[u8]) -> (r: Config)
    requires
        valid_utf8(k@),
        valid_utf8(v@),
    ensures
        r == ms_step(c, notes_view(old(notes)@), k@, v@).0,
        notes_view(final(notes)@) == ms_step(c, notes_view(old(notes)@), k@, v@).1,
{
    match whole_u32(v) {
        Some(ms) if MS_MIN <= ms && ms <= MS_MAX => {
            if eq_ic_exec(k, "gatherinterval".as_bytes()) {
                Config { gather_interval_ms: ms, ..c }
            } else {
                Config { node_cooldown_ms: ms, ..c }
            }
        },
        _ => {
            let mut pre: Vec<u8> = Vec::new();
            push_all(&mut pre, k);
            push_str(&mut pre, ": bad value ");
            proof {
                lemma_lit_valid(": bad value ");
                lemma_lit_valid(" (100..60000 ms), keeping default");
                valid_utf8_concat(k@, lit(": bad value "));
            }
            let w = quoted_between(pre.as_slice(), v, " (100..60000 ms), keeping default".as_bytes());
            push_note(notes, Note::Warning(w));
            c
        },
    }
}

fn apply_number(c: Config, notes: &mut Vec<Note>, k: &[u8], v: &[u8]) -> (r: Config)
    requires
        valid_utf8(k@),
        valid_utf8(v@),
    ensures
        r == number_step(c, notes_view(old(notes)@), k@, v@).0,
        notes_view(final(notes)@) == number_step(c, notes_view(old(notes)@), k@, v@).1,
{
    if eq_ic_exec(k, "surveylines".as_bytes()) {
        apply_survey(c, notes, v)
    } else if eq_ic_exec(k, "stacklimit".as_bytes()) {
        apply_stack(c, notes, v)
    } else if eq_ic_exec(k, "bagtab".as_bytes()) {
        apply_bag_tab(c, notes, v)
    } else if eq_ic_exec(k, "gatherinterval".as_bytes()) || eq_ic_exec(k, "nodecooldown".as_bytes()) {
        apply_ms(c, notes, k, v)
    } else {
        let w = unknown_warning_exec(k);
        push_note(notes, Note::Warning(w));
        c
    }
}

/// Reads the `[Looter]` section of the shared ini. Lines under other headers
/// are neither applied nor warned about; inside the section, a bad line, an
/// out-of-range number, a key name `keys` does not hold and an unknown key
/// each leave a warning and keep the value in force. The two decimals come
/// back as raw notes.
pub fn parse(text: &str, keys: &[(String, u16)]) -> (r: (Config, Vec<Note>))
    ensures
        r.0 == parse_spec(text, keys_view(keys@)).0,
        notes_view(r.1@) == parse_spec(text, keys_view(keys@)).1,
{
    let ls = lines_in_section(text.as_bytes(), INI_SECTION.as_bytes());
    let ghost all = section_lines_spec(text.spec_bytes(), lit(INI_SECTION));
    proof {
        lemma_lit_valid(text);
        lemma_section_lines_valid(text.spec_bytes(), lit(INI_SECTION));
    }
    let mut cfg = Config::default();
    let mut notes: Vec<Note> = Vec::new();
    let mut i: usize = 0;
    while i < ls.len()
        invariant
            lines_view(ls@) == all,
            forall|j: int| 0 <= j < all.len() ==> line_valid(#[trigger] all[j]),
            0 <= i <= ls.len(),
            (cfg, notes_view(notes@)) == parse_lines(keys_view(keys@), all.take(i as int)),
        decreases ls.len() - i,
    {
        let ghost l = all[i as int];
        assert(ls@[i as int]@ == l);
        proof {
            assert(all.take(i + 1).drop_last() =~= all.take(i as int));
            assert(all.take(i + 1).last() == l);
        }
        match &ls[i] {
            Line::Bad(m) => {
                let s = string_of(m.as_slice());
                push_note(&mut notes, Note::Warning(s));
            },
            Line::Pair(k, v) => {
                cfg = apply_pair(keys, cfg, &mut notes, k.as_slice(), v.as_slice());
            },
        }
        i = i + 1;
    }
    proof {
        assert(all.take(ls.len() as int) =~= all);
    }
    (cfg, notes)
}

} // verus!
