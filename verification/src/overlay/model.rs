//! The overlay's own typed picture of the gatherer's keys: what a key
//! missing from the file shows in the menu, and what the menu writes back.

use vstd::prelude::*;
use vstd::string::StringSliceAdditionalSpecFns;
use vstd::utf8::*;

use crate::ini::{lines, lines_spec, lines_view, truthy, parse_bool, Line, SpecLine};
use crate::strings::{idec_spec, idec_string, lit};
use crate::text::{eq_ic, eq_ic_exec, lower, parse_i32, parse_i32_at};

verus! {

/// The accepted range of a gatherer multiplier.
pub const MULT_RANGE: (i32, i32) = (1, 100);

/// A model of one subsystem's keys in the shared ini.
pub trait IniModel: Sized {
    /// Read the model out of ini text; keys it does not own are ignored.
    fn parse(text: &str) -> Self;

    /// Every key the model owns, as the ini spells it, with its value.
    fn pairs(&self) -> Vec<(&'static str, String)>;
}

#[derive(Debug, Clone, Copy, PartialEq, Eq, Structural)]
pub struct GathererModel {
    pub enabled: bool,
    pub dry_run: bool,
    pub foraging: i32,
    pub logging: i32,
    pub mining: i32,
    pub ore: i32,
}

pub open spec fn gatherer_default() -> GathererModel {
    GathererModel { enabled: true, dry_run: false, foraging: 1, logging: 1, mining: 1, ore: 1 }
}

impl Default for GathererModel {
    fn default() -> (r: GathererModel)
        ensures
            r == gatherer_default(),
    {
        GathererModel { enabled: true, dry_run: false, foraging: 1, logging: 1, mining: 1, ore: 1 }
    }
}

/// `v` as an `i32` when it parses and lies in `lo..=hi`, else `fallback`.
pub open spec fn clamp_i32_spec(v: Seq<u8>, lo: i32, hi: i32, fallback: i32) -> i32 {
    match parse_i32(v) {
        Some(n) if lo <= n <= hi => n,
        _ => fallback,
    }
}

pub fn clamp_i32(v: &[u8], lo: i32, hi: i32, fallback: i32) -> (r: i32)
    ensures
        r == clamp_i32_spec(v@, lo, hi, fallback),
{
    proof {
        assert(v@.subrange(0, v@.len() as int) =~= v@);
    }
    match parse_i32_at(v, 0, v.len()) {
        Some(n) if lo <= n && n <= hi => n,
        _ => fallback,
    }
}

/// One line's effect on the model: keys it does not own, and bad lines, are
/// ignored.
pub open spec fn gatherer_step(m: GathererModel, l: SpecLine) -> GathererModel {
    match l {
        SpecLine::Pair(k, v) => if eq_ic(k, lit("enabled")) {
            GathererModel { enabled: truthy(v), ..m }
        } else if eq_ic(k, lit("dryrun")) {
            GathererModel { dry_run: truthy(v), ..m }
        } else if eq_ic(k, lit("foraging")) {
            GathererModel { foraging: clamp_i32_spec(v, MULT_RANGE.0, MULT_RANGE.1, m.foraging), ..m }
        } else if eq_ic(k, lit("logging")) {
            GathererModel { logging: clamp_i32_spec(v, MULT_RANGE.0, MULT_RANGE.1, m.logging), ..m }
        } else if eq_ic(k, lit("mining")) {
            GathererModel { mining: clamp_i32_spec(v, MULT_RANGE.0, MULT_RANGE.1, m.mining), ..m }
        } else if eq_ic(k, lit("ore")) {
            GathererModel { ore: clamp_i32_spec(v, MULT_RANGE.0, MULT_RANGE.1, m.ore), ..m }
        } else {
            m
        },
        SpecLine::Bad(_) => m,
    }
}

pub open spec fn gatherer_lines(ls: Seq<SpecLine>) -> GathererModel
    decreases ls.len(),
{
    if ls.len() == 0 {
        gatherer_default()
    } else {
        gatherer_step(gatherer_lines(ls.drop_last()), ls.last())
    }
}

/// `1` or `0`.
pub open spec fn flag_spec(b: bool) -> Seq<u8> {
    if b { idec_spec(1) } else { idec_spec(0) }
}

/// The pairs the menu writes, in menu order.
pub open spec fn gatherer_pairs(m: GathererModel) -> Seq<(Seq<char>, Seq<u8>)> {
    seq![
        ("Enabled"@, flag_spec(m.enabled)),
        ("DryRun"@, flag_spec(m.dry_run)),
        ("Foraging"@, idec_spec(m.foraging as int)),
        ("Logging"@, idec_spec(m.logging as int)),
        ("Mining"@, idec_spec(m.mining as int)),
        ("Ore"@, idec_spec(m.ore as int)),
    ]
}

fn flag(b: bool) -> (r: String)
    ensures
        encode_utf8(r@) == flag_spec(b),
{
    if b { idec_string(1) } else { idec_string(0) }
}

impl GathererModel {
    pub const FILE_NAME: &'static str = "DesertGatherer.ini";
    pub const HEADER: &'static str = "; DesertGatherer.ini, created by Desert Overlay because the file was missing.\n; The keys below are the ones the overlay's menu edits, at Desert Gatherer's own\n; defaults (every family at 1x, i.e. vanilla yields). The mod's shipped\n; DesertGatherer.ini documents them, the Debug key and the DMM conflict; anything\n; you add by hand is preserved - the overlay only ever rewrites its own keys.\n[DesertGatherer]\n";
}

impl IniModel for GathererModel {
    fn parse(text: &str) -> (r: GathererModel)
        ensures
            r == gatherer_lines(lines_spec(text.spec_bytes())),
    {
        let ls = lines(text.as_bytes());
        let ghost all = lines_spec(text.spec_bytes());
        let mut m = GathererModel::default();
        let mut i: usize = 0;
        while i < ls.len()
            invariant
                lines_view(ls@) == all,
                0 <= i <= ls.len(),
                m == gatherer_lines(all.take(i as int)),
            decreases ls.len() - i,
        {
            proof {
                assert(all.take(i + 1).drop_last() =~= all.take(i as int));
                assert(all.take(i + 1).last() == ls@[i as int]@);
            }
            match &ls[i] {
                Line::Pair(k, v) => {
                    let k = k.as_slice();
                    let v = v.as_slice();
                    if eq_ic_exec(k, "enabled".as_bytes()) {
                        m.enabled = parse_bool(v);
                    } else if eq_ic_exec(k, "dryrun".as_bytes()) {
                        m.dry_run = parse_bool(v);
                    } else if eq_ic_exec(k, "foraging".as_bytes()) {
                        m.foraging = clamp_i32(v, MULT_RANGE.0, MULT_RANGE.1, m.foraging);
                    } else if eq_ic_exec(k, "logging".as_bytes()) {
                        m.logging = clamp_i32(v, MULT_RANGE.0, MULT_RANGE.1, m.logging);
                    } else if eq_ic_exec(k, "mining".as_bytes()) {
                        m.mining = clamp_i32(v, MULT_RANGE.0, MULT_RANGE.1, m.mining);
                    } else if eq_ic_exec(k, "ore".as_bytes()) {
                        m.ore = clamp_i32(v, MULT_RANGE.0, MULT_RANGE.1, m.ore);
                    }
                },
                Line::Bad(_) => {},
            }
            i = i + 1;
        }
        proof {
            assert(all.take(ls.len() as int) =~= all);
        }
        m
    }

    fn pairs(&self) -> (r: Vec<(&'static str, String)>)
        ensures
            r@.len() == gatherer_pairs(*self).len(),
            forall|i: int| 0 <= i < r@.len() ==> (#[trigger] r@[i]).0@ == gatherer_pairs(*self)[i].0
                && encode_utf8(r@[i].1@) == gatherer_pairs(*self)[i].1,
    {
        let mut r: Vec<(&'static str, String)> = Vec::new();
        r.push(("Enabled", flag(self.enabled)));
        r.push(("DryRun", flag(self.dry_run)));
        r.push(("Foraging", idec_string(self.foraging as i64)));
        r.push(("Logging", idec_string(self.logging as i64)));
        r.push(("Mining", idec_string(self.mining as i64)));
        r.push(("Ore", idec_string(self.ore as i64)));
        r
    }
}

// ---------------------------------------------------------------------------
// The looter's keys
// ---------------------------------------------------------------------------

/// The accepted range of the looter's two intervals, in milliseconds.
pub const MS_RANGE: (i32, i32) = (100, 60_000);
/// The accepted range of the looter's stack limit.
pub const STACK_LIMIT_RANGE: (i32, i32) = (10, 1_000_000);

/// The looter's two decimal keys, which the menu holds as text.
#[derive(Debug, Clone, Copy, PartialEq, Eq, Structural)]
pub enum RangeKey {
    Scan,
    Gather,
}

/// The overlay's picture of the looter's keys: the switches and the whole
/// numbers, and every `ScanRange` and `GatherRange` value as written, in
/// file order, for the caller to read as decimals.
#[derive(Debug, Clone)]
pub struct LooterModel {
    pub enabled: bool,
    pub auto_gather: bool,
    pub gather_foraging: bool,
    pub gather_logging: bool,
    pub gather_mining: bool,
    pub gather_ore: bool,
    pub gather_items: bool,
    pub gather_gear: bool,
    pub gather_unarmed: bool,
    pub gather_interval_ms: i32,
    pub node_cooldown_ms: i32,
    pub stack_limit: i32,
    pub ranges: Vec<(RangeKey, Vec<u8>)>,
}

/// What a `LooterModel` holds, with the range values as byte sequences.
pub struct LooterModelView {
    pub enabled: bool,
    pub auto_gather: bool,
    pub gather_foraging: bool,
    pub gather_logging: bool,
    pub gather_mining: bool,
    pub gather_ore: bool,
    pub gather_items: bool,
    pub gather_gear: bool,
    pub gather_unarmed: bool,
    pub gather_interval_ms: i32,
    pub node_cooldown_ms: i32,
    pub stack_limit: i32,
    pub ranges: Seq<(RangeKey, Seq<u8>)>,
}

pub open spec fn ranges_view(v: Seq<(RangeKey, Vec<u8>)>) -> Seq<(RangeKey, Seq<u8>)> {
    v.map_values(|p: (RangeKey, Vec<u8>)| (p.0, p.1@))
}

impl View for LooterModel {
    type V = LooterModelView;

    open spec fn view(&self) -> LooterModelView {
        LooterModelView {
            enabled: self.enabled,
            auto_gather: self.auto_gather,
            gather_foraging: self.gather_foraging,
            gather_logging: self.gather_logging,
            gather_mining: self.gather_mining,
            gather_ore: self.gather_ore,
            gather_items: self.gather_items,
            gather_gear: self.gather_gear,
            gather_unarmed: self.gather_unarmed,
            gather_interval_ms: self.gather_interval_ms,
            node_cooldown_ms: self.node_cooldown_ms,
            stack_limit: self.stack_limit,
            ranges: ranges_view(self.ranges@),
        }
    }
}

/// The looter's own defaults, before any line.
pub open spec fn looter_default() -> LooterModelView {
    LooterModelView {
        enabled: true,
        auto_gather: false,
        gather_foraging: true,
        gather_logging: true,
        gather_mining: true,
        gather_ore: true,
        gather_items: true,
        gather_gear: false,
        gather_unarmed: true,
        gather_interval_ms: 500,
        node_cooldown_ms: 8000,
        stack_limit: 999,
        ranges: Seq::empty(),
    }
}

/// One line's effect on the looter's picture: keys the menu does not edit,
/// and bad lines, are ignored.
pub open spec fn looter_step(m: LooterModelView, l: SpecLine) -> LooterModelView {
    match l {
        SpecLine::Pair(k, v) => if eq_ic(k, lit("enabled")) {
            LooterModelView { enabled: truthy(v), ..m }
        } else if eq_ic(k, lit("autogather")) {
            LooterModelView { auto_gather: truthy(v), ..m }
        } else if eq_ic(k, lit("gatherforaging")) {
            LooterModelView { gather_foraging: truthy(v), ..m }
        } else if eq_ic(k, lit("gatherlogging")) {
            LooterModelView { gather_logging: truthy(v), ..m }
        } else if eq_ic(k, lit("gathermining")) {
            LooterModelView { gather_mining: truthy(v), ..m }
        } else if eq_ic(k, lit("gatherore")) {
            LooterModelView { gather_ore: truthy(v), ..m }
        } else if eq_ic(k, lit("gatheritems")) {
            LooterModelView { gather_items: truthy(v), ..m }
        } else if eq_ic(k, lit("gathergear")) {
            LooterModelView { gather_gear: truthy(v), ..m }
        } else if eq_ic(k, lit("gatherunarmed")) {
            LooterModelView { gather_unarmed: truthy(v), ..m }
        } else if eq_ic(k, lit("scanrange")) {
            LooterModelView { ranges: m.ranges.push((RangeKey::Scan, v)), ..m }
        } else if eq_ic(k, lit("gatherrange")) {
            LooterModelView { ranges: m.ranges.push((RangeKey::Gather, v)), ..m }
        } else if eq_ic(k, lit("gatherinterval")) {
            LooterModelView { gather_interval_ms: clamp_i32_spec(v, MS_RANGE.0, MS_RANGE.1, m.gather_interval_ms), ..m }
        } else if eq_ic(k, lit("nodecooldown")) {
            LooterModelView { node_cooldown_ms: clamp_i32_spec(v, MS_RANGE.0, MS_RANGE.1, m.node_cooldown_ms), ..m }
        } else if eq_ic(k, lit("stacklimit")) {
            LooterModelView { stack_limit: clamp_i32_spec(v, STACK_LIMIT_RANGE.0, STACK_LIMIT_RANGE.1, m.stack_limit), ..m }
        } else {
            m
        },
        SpecLine::Bad(_) => m,
    }
}

pub open spec fn looter_lines(ls: Seq<SpecLine>) -> LooterModelView
    decreases ls.len(),
{
    if ls.len() == 0 {
        looter_default()
    } else {
        looter_step(looter_lines(ls.drop_last()), ls.last())
    }
}

/// The bytes of the key names menu reads.
proof fn lemma_menu_name_bytes()
    ensures
        lit("enabled") == seq![0x65u8, 0x6E, 0x61, 0x62, 0x6C, 0x65, 0x64],
        lit("autogather") == seq![0x61u8, 0x75, 0x74, 0x6F, 0x67, 0x61, 0x74, 0x68, 0x65, 0x72],
        lit("gatherforaging") == seq![0x67u8, 0x61, 0x74, 0x68, 0x65, 0x72, 0x66, 0x6F, 0x72, 0x61, 0x67, 0x69, 0x6E, 0x67],
        lit("gatherlogging") == seq![0x67u8, 0x61, 0x74, 0x68, 0x65, 0x72, 0x6C, 0x6F, 0x67, 0x67, 0x69, 0x6E, 0x67],
        lit("gathermining") == seq![0x67u8, 0x61, 0x74, 0x68, 0x65, 0x72, 0x6D, 0x69, 0x6E, 0x69, 0x6E, 0x67],
        lit("gatherore") == seq![0x67u8, 0x61, 0x74, 0x68, 0x65, 0x72, 0x6F, 0x72, 0x65],
        lit("gatheritems") == seq![0x67u8, 0x61, 0x74, 0x68, 0x65, 0x72, 0x69, 0x74, 0x65, 0x6D, 0x73],
        lit("gathergear") == seq![0x67u8, 0x61, 0x74, 0x68, 0x65, 0x72, 0x67, 0x65, 0x61, 0x72],
        lit("gatherunarmed") == seq![0x67u8, 0x61, 0x74, 0x68, 0x65, 0x72, 0x75, 0x6E, 0x61, 0x72, 0x6D, 0x65, 0x64],
        lit("scanrange") == seq![0x73u8, 0x63, 0x61, 0x6E, 0x72, 0x61, 0x6E, 0x67, 0x65],
        lit("gatherrange") == seq![0x67u8, 0x61, 0x74, 0x68, 0x65, 0x72, 0x72, 0x61, 0x6E, 0x67, 0x65],
        lit("gatherinterval") == seq![0x67u8, 0x61, 0x74, 0x68, 0x65, 0x72, 0x69, 0x6E, 0x74, 0x65, 0x72, 0x76, 0x61, 0x6C],
        lit("nodecooldown") == seq![0x6Eu8, 0x6F, 0x64, 0x65, 0x63, 0x6F, 0x6F, 0x6C, 0x64, 0x6F, 0x77, 0x6E],
        lit("stacklimit") == seq![0x73u8, 0x74, 0x61, 0x63, 0x6B, 0x6C, 0x69, 0x6D, 0x69, 0x74],
{
    reveal_strlit("enabled");
    assert(lit("enabled") =~= seq![0x65u8, 0x6E, 0x61, 0x62, 0x6C, 0x65, 0x64]) by {
        broadcast use vstd::string::group_string_axioms;
        assert("enabled".is_ascii());
    }
    reveal_strlit("autogather");
    assert(lit("autogather") =~= seq![0x61u8, 0x75, 0x74, 0x6F, 0x67, 0x61, 0x74, 0x68, 0x65, 0x72]) by {
        broadcast use vstd::string::group_string_axioms;
        assert("autogather".is_ascii());
    }
    reveal_strlit("gatherforaging");
    assert(lit("gatherforaging") =~= seq![0x67u8, 0x61, 0x74, 0x68, 0x65, 0x72, 0x66, 0x6F, 0x72, 0x61, 0x67, 0x69, 0x6E, 0x67]) by {
        broadcast use vstd::string::group_string_axioms;
        assert("gatherforaging".is_ascii());
    }
    reveal_strlit("gatherlogging");
    assert(lit("gatherlogging") =~= seq![0x67u8, 0x61, 0x74, 0x68, 0x65, 0x72, 0x6C, 0x6F, 0x67, 0x67, 0x69, 0x6E, 0x67]) by {
        broadcast use vstd::string::group_string_axioms;
        assert("gatherlogging".is_ascii());
    }
    reveal_strlit("gathermining");
    assert(lit("gathermining") =~= seq![0x67u8, 0x61, 0x74, 0x68, 0x65, 0x72, 0x6D, 0x69, 0x6E, 0x69, 0x6E, 0x67]) by {
        broadcast use vstd::string::group_string_axioms;
        assert("gathermining".is_ascii());
    }
    reveal_strlit("gatherore");
    assert(lit("gatherore") =~= seq![0x67u8, 0x61, 0x74, 0x68, 0x65, 0x72, 0x6F, 0x72, 0x65]) by {
        broadcast use vstd::string::group_string_axioms;
        assert("gatherore".is_ascii());
    }
    reveal_strlit("gatheritems");
    assert(lit("gatheritems") =~= seq![0x67u8, 0x61, 0x74, 0x68, 0x65, 0x72, 0x69, 0x74, 0x65, 0x6D, 0x73]) by {
        broadcast use vstd::string::group_string_axioms;
        assert("gatheritems".is_ascii());
    }
    reveal_strlit("gathergear");
    assert(lit("gathergear") =~= seq![0x67u8, 0x61, 0x74, 0x68, 0x65, 0x72, 0x67, 0x65, 0x61, 0x72]) by {
        broadcast use vstd::string::group_string_axioms;
        assert("gathergear".is_ascii());
    }
    reveal_strlit("gatherunarmed");
    assert(lit("gatherunarmed") =~= seq![0x67u8, 0x61, 0x74, 0x68, 0x65, 0x72, 0x75, 0x6E, 0x61, 0x72, 0x6D, 0x65, 0x64]) by {
        broadcast use vstd::string::group_string_axioms;
        assert("gatherunarmed".is_ascii());
    }
    reveal_strlit("scanrange");
    assert(lit("scanrange") =~= seq![0x73u8, 0x63, 0x61, 0x6E, 0x72, 0x61, 0x6E, 0x67, 0x65]) by {
        broadcast use vstd::string::group_string_axioms;
        assert("scanrange".is_ascii());
    }
    reveal_strlit("gatherrange");
    assert(lit("gatherrange") =~= seq![0x67u8, 0x61, 0x74, 0x68, 0x65, 0x72, 0x72, 0x61, 0x6E, 0x67, 0x65]) by {
        broadcast use vstd::string::group_string_axioms;
        assert("gatherrange".is_ascii());
    }
    reveal_strlit("gatherinterval");
    assert(lit("gatherinterval") =~= seq![0x67u8, 0x61, 0x74, 0x68, 0x65, 0x72, 0x69, 0x6E, 0x74, 0x65, 0x72, 0x76, 0x61, 0x6C]) by {
        broadcast use vstd::string::group_string_axioms;
        assert("gatherinterval".is_ascii());
    }
    reveal_strlit("nodecooldown");
    assert(lit("nodecooldown") =~= seq![0x6Eu8, 0x6F, 0x64, 0x65, 0x63, 0x6F, 0x6F, 0x6C, 0x64, 0x6F, 0x77, 0x6E]) by {
        broadcast use vstd::string::group_string_axioms;
        assert("nodecooldown".is_ascii());
    }
    reveal_strlit("stacklimit");
    assert(lit("stacklimit") =~= seq![0x73u8, 0x74, 0x61, 0x63, 0x6B, 0x6C, 0x69, 0x6D, 0x69, 0x74]) by {
        broadcast use vstd::string::group_string_axioms;
        assert("stacklimit".is_ascii());
    }
}

/// No key matches two of the names menu reads, ignoring ASCII case.
proof fn lemma_menu_names_apart(k: Seq<u8>)
    ensures
        eq_ic(k, lit("enabled")) ==> !eq_ic(k, lit("autogather")),
        eq_ic(k, lit("enabled")) ==> !eq_ic(k, lit("gatherforaging")),
        eq_ic(k, lit("enabled")) ==> !eq_ic(k, lit("gatherlogging")),
        eq_ic(k, lit("enabled")) ==> !eq_ic(k, lit("gathermining")),
        eq_ic(k, lit("enabled")) ==> !eq_ic(k, lit("gatherore")),
        eq_ic(k, lit("enabled")) ==> !eq_ic(k, lit("gatheritems")),
        eq_ic(k, lit("enabled")) ==> !eq_ic(k, lit("gathergear")),
        eq_ic(k, lit("enabled")) ==> !eq_ic(k, lit("gatherunarmed")),
        eq_ic(k, lit("enabled")) ==> !eq_ic(k, lit("scanrange")),
        eq_ic(k, lit("enabled")) ==> !eq_ic(k, lit("gatherrange")),
        eq_ic(k, lit("enabled")) ==> !eq_ic(k, lit("gatherinterval")),
        eq_ic(k, lit("enabled")) ==> !eq_ic(k, lit("nodecooldown")),
        eq_ic(k, lit("enabled")) ==> !eq_ic(k, lit("stacklimit")),
        eq_ic(k, lit("autogather")) ==> !eq_ic(k, lit("gatherforaging")),
        eq_ic(k, lit("autogather")) ==> !eq_ic(k, lit("gatherlogging")),
        eq_ic(k, lit("autogather")) ==> !eq_ic(k, lit("gathermining")),
        eq_ic(k, lit("autogather")) ==> !eq_ic(k, lit("gatherore")),
        eq_ic(k, lit("autogather")) ==> !eq_ic(k, lit("gatheritems")),
        eq_ic(k, lit("autogather")) ==> !eq_ic(k, lit("gathergear")),
        eq_ic(k, lit("autogather")) ==> !eq_ic(k, lit("gatherunarmed")),
        eq_ic(k, lit("autogather")) ==> !eq_ic(k, lit("scanrange")),
        eq_ic(k, lit("autogather")) ==> !eq_ic(k, lit("gatherrange")),
        eq_ic(k, lit("autogather")) ==> !eq_ic(k, lit("gatherinterval")),
        eq_ic(k, lit("autogather")) ==> !eq_ic(k, lit("nodecooldown")),
        eq_ic(k, lit("autogather")) ==> !eq_ic(k, lit("stacklimit")),
        eq_ic(k, lit("gatherforaging")) ==> !eq_ic(k, lit("gatherlogging")),
        eq_ic(k, lit("gatherforaging")) ==> !eq_ic(k, lit("gathermining")),
        eq_ic(k, lit("gatherforaging")) ==> !eq_ic(k, lit("gatherore")),
        eq_ic(k, lit("gatherforaging")) ==> !eq_ic(k, lit("gatheritems")),
        eq_ic(k, lit("gatherforaging")) ==> !eq_ic(k, lit("gathergear")),
        eq_ic(k, lit("gatherforaging")) ==> !eq_ic(k, lit("gatherunarmed")),
        eq_ic(k, lit("gatherforaging")) ==> !eq_ic(k, lit("scanrange")),
        eq_ic(k, lit("gatherforaging")) ==> !eq_ic(k, lit("gatherrange")),
        eq_ic(k, lit("gatherforaging")) ==> !eq_ic(k, lit("gatherinterval")),
        eq_ic(k, lit("gatherforaging")) ==> !eq_ic(k, lit("nodecooldown")),
        eq_ic(k, lit("gatherforaging")) ==> !eq_ic(k, lit("stacklimit")),
        eq_ic(k, lit("gatherlogging")) ==> !eq_ic(k, lit("gathermining")),
        eq_ic(k, lit("gatherlogging")) ==> !eq_ic(k, lit("gatherore")),
        eq_ic(k, lit("gatherlogging")) ==> !eq_ic(k, lit("gatheritems")),
        eq_ic(k, lit("gatherlogging")) ==> !eq_ic(k, lit("gathergear")),
        eq_ic(k, lit("gatherlogging")) ==> !eq_ic(k, lit("gatherunarmed")),
        eq_ic(k, lit("gatherlogging")) ==> !eq_ic(k, lit("scanrange")),
        eq_ic(k, lit("gatherlogging")) ==> !eq_ic(k, lit("gatherrange")),
        eq_ic(k, lit("gatherlogging")) ==> !eq_ic(k, lit("gatherinterval")),
        eq_ic(k, lit("gatherlogging")) ==> !eq_ic(k, lit("nodecooldown")),
        eq_ic(k, lit("gatherlogging")) ==> !eq_ic(k, lit("stacklimit")),
        eq_ic(k, lit("gathermining")) ==> !eq_ic(k, lit("gatherore")),
        eq_ic(k, lit("gathermining")) ==> !eq_ic(k, lit("gatheritems")),
        eq_ic(k, lit("gathermining")) ==> !eq_ic(k, lit("gathergear")),
        eq_ic(k, lit("gathermining")) ==> !eq_ic(k, lit("gatherunarmed")),
        eq_ic(k, lit("gathermining")) ==> !eq_ic(k, lit("scanrange")),
        eq_ic(k, lit("gathermining")) ==> !eq_ic(k, lit("gatherrange")),
        eq_ic(k, lit("gathermining")) ==> !eq_ic(k, lit("gatherinterval")),
        eq_ic(k, lit("gathermining")) ==> !eq_ic(k, lit("nodecooldown")),
        eq_ic(k, lit("gathermining")) ==> !eq_ic(k, lit("stacklimit")),
        eq_ic(k, lit("gatherore")) ==> !eq_ic(k, lit("gatheritems")),
        eq_ic(k, lit("gatherore")) ==> !eq_ic(k, lit("gathergear")),
        eq_ic(k, lit("gatherore")) ==> !eq_ic(k, lit("gatherunarmed")),
        eq_ic(k, lit("gatherore")) ==> !eq_ic(k, lit("scanrange")),
        eq_ic(k, lit("gatherore")) ==> !eq_ic(k, lit("gatherrange")),
        eq_ic(k, lit("gatherore")) ==> !eq_ic(k, lit("gatherinterval")),
        eq_ic(k, lit("gatherore")) ==> !eq_ic(k, lit("nodecooldown")),
        eq_ic(k, lit("gatherore")) ==> !eq_ic(k, lit("stacklimit")),
        eq_ic(k, lit("gatheritems")) ==> !eq_ic(k, lit("gathergear")),
        eq_ic(k, lit("gatheritems")) ==> !eq_ic(k, lit("gatherunarmed")),
        eq_ic(k, lit("gatheritems")) ==> !eq_ic(k, lit("scanrange")),
        eq_ic(k, lit("gatheritems")) ==> !eq_ic(k, lit("gatherrange")),
        eq_ic(k, lit("gatheritems")) ==> !eq_ic(k, lit("gatherinterval")),
        eq_ic(k, lit("gatheritems")) ==> !eq_ic(k, lit("nodecooldown")),
        eq_ic(k, lit("gatheritems")) ==> !eq_ic(k, lit("stacklimit")),
        eq_ic(k, lit("gathergear")) ==> !eq_ic(k, lit("gatherunarmed")),
        eq_ic(k, lit("gathergear")) ==> !eq_ic(k, lit("scanrange")),
        eq_ic(k, lit("gathergear")) ==> !eq_ic(k, lit("gatherrange")),
        eq_ic(k, lit("gathergear")) ==> !eq_ic(k, lit("gatherinterval")),
        eq_ic(k, lit("gathergear")) ==> !eq_ic(k, lit("nodecooldown")),
        eq_ic(k, lit("gathergear")) ==> !eq_ic(k, lit("stacklimit")),
        eq_ic(k, lit("gatherunarmed")) ==> !eq_ic(k, lit("scanrange")),
        eq_ic(k, lit("gatherunarmed")) ==> !eq_ic(k, lit("gatherrange")),
        eq_ic(k, lit("gatherunarmed")) ==> !eq_ic(k, lit("gatherinterval")),
        eq_ic(k, lit("gatherunarmed")) ==> !eq_ic(k, lit("nodecooldown")),
        eq_ic(k, lit("gatherunarmed")) ==> !eq_ic(k, lit("stacklimit")),
        eq_ic(k, lit("scanrange")) ==> !eq_ic(k, lit("gatherrange")),
        eq_ic(k, lit("scanrange")) ==> !eq_ic(k, lit("gatherinterval")),
        eq_ic(k, lit("scanrange")) ==> !eq_ic(k, lit("nodecooldown")),
        eq_ic(k, lit("scanrange")) ==> !eq_ic(k, lit("stacklimit")),
        eq_ic(k, lit("gatherrange")) ==> !eq_ic(k, lit("gatherinterval")),
        eq_ic(k, lit("gatherrange")) ==> !eq_ic(k, lit("nodecooldown")),
        eq_ic(k, lit("gatherrange")) ==> !eq_ic(k, lit("stacklimit")),
        eq_ic(k, lit("gatherinterval")) ==> !eq_ic(k, lit("nodecooldown")),
        eq_ic(k, lit("gatherinterval")) ==> !eq_ic(k, lit("stacklimit")),
        eq_ic(k, lit("nodecooldown")) ==> !eq_ic(k, lit("stacklimit")),
{
    lemma_menu_name_bytes();
    if eq_ic(k, lit("autogather")) && eq_ic(k, lit("gathergear")) {
        assert(lower(k[0]) == lower(lit("autogather")[0]));
        assert(lower(k[0]) == lower(lit("gathergear")[0]));
    }
    if eq_ic(k, lit("autogather")) && eq_ic(k, lit("stacklimit")) {
        assert(lower(k[0]) == lower(lit("autogather")[0]));
        assert(lower(k[0]) == lower(lit("stacklimit")[0]));
    }
    if eq_ic(k, lit("gatherforaging")) && eq_ic(k, lit("gatherinterval")) {
        assert(lower(k[6]) == lower(lit("gatherforaging")[6]));
        assert(lower(k[6]) == lower(lit("gatherinterval")[6]));
    }
    if eq_ic(k, lit("gatherlogging")) && eq_ic(k, lit("gatherunarmed")) {
        assert(lower(k[6]) == lower(lit("gatherlogging")[6]));
        assert(lower(k[6]) == lower(lit("gatherunarmed")[6]));
    }
    if eq_ic(k, lit("gathermining")) && eq_ic(k, lit("nodecooldown")) {
        assert(lower(k[0]) == lower(lit("gathermining")[0]));
        assert(lower(k[0]) == lower(lit("nodecooldown")[0]));
    }
    if eq_ic(k, lit("gatherore")) && eq_ic(k, lit("scanrange")) {
        assert(lower(k[0]) == lower(lit("gatherore")[0]));
        assert(lower(k[0]) == lower(lit("scanrange")[0]));
    }
    if eq_ic(k, lit("gatheritems")) && eq_ic(k, lit("gatherrange")) {
        assert(lower(k[6]) == lower(lit("gatheritems")[6]));
        assert(lower(k[6]) == lower(lit("gatherrange")[6]));
    }
    if eq_ic(k, lit("gathergear")) && eq_ic(k, lit("stacklimit")) {
        assert(lower(k[0]) == lower(lit("gathergear")[0]));
        assert(lower(k[0]) == lower(lit("stacklimit")[0]));
    }
}


/// What one line does to the menu's picture of the looter, whatever came
/// before: a switch key (ignoring ASCII case) sets that switch to whether the
/// value is truthy; a range key appends its value as written; an interval or
/// the stack limit takes the value when it is a whole number within the
/// key's range and keeps the old one otherwise; any other key changes
/// nothing.
pub proof fn lemma_looter_line(ls: Seq<SpecLine>, k: Seq<u8>, v: Seq<u8>)
    ensures
        ({
            let before = looter_lines(ls);
            let after = looter_lines(ls.push(SpecLine::Pair(k, v)));
            &&& eq_ic(k, lit("enabled")) ==> after == LooterModelView { enabled: truthy(v), ..before }
            &&& eq_ic(k, lit("autogather")) ==> after == LooterModelView { auto_gather: truthy(v), ..before }
            &&& eq_ic(k, lit("gatherforaging")) ==> after == LooterModelView { gather_foraging: truthy(v), ..before }
            &&& eq_ic(k, lit("gatherlogging")) ==> after == LooterModelView { gather_logging: truthy(v), ..before }
            &&& eq_ic(k, lit("gathermining")) ==> after == LooterModelView { gather_mining: truthy(v), ..before }
            &&& eq_ic(k, lit("gatherore")) ==> after == LooterModelView { gather_ore: truthy(v), ..before }
            &&& eq_ic(k, lit("gatheritems")) ==> after == LooterModelView { gather_items: truthy(v), ..before }
            &&& eq_ic(k, lit("gathergear")) ==> after == LooterModelView { gather_gear: truthy(v), ..before }
            &&& eq_ic(k, lit("gatherunarmed")) ==> after == LooterModelView { gather_unarmed: truthy(v), ..before }
            &&& eq_ic(k, lit("scanrange")) ==> after == LooterModelView { ranges: before.ranges.push((RangeKey::Scan, v)), ..before }
            &&& eq_ic(k, lit("gatherrange")) ==> after == LooterModelView { ranges: before.ranges.push((RangeKey::Gather, v)), ..before }
            &&& eq_ic(k, lit("gatherinterval")) ==> after == LooterModelView {
                gather_interval_ms: match parse_i32(v) {
                    Some(n) => if 100 <= n <= 60000 { n } else { before.gather_interval_ms },
                    None => before.gather_interval_ms,
                },
                ..before
            }
            &&& eq_ic(k, lit("nodecooldown")) ==> after == LooterModelView {
                node_cooldown_ms: match parse_i32(v) {
                    Some(n) => if 100 <= n <= 60000 { n } else { before.node_cooldown_ms },
                    None => before.node_cooldown_ms,
                },
                ..before
            }
            &&& eq_ic(k, lit("stacklimit")) ==> after == LooterModelView {
                stack_limit: match parse_i32(v) {
                    Some(n) => if 10 <= n <= 1000000 { n } else { before.stack_limit },
                    None => before.stack_limit,
                },
                ..before
            }
            &&& (!eq_ic(k, lit("enabled")) && !eq_ic(k, lit("autogather")) && !eq_ic(k, lit("gatherforaging")) && !eq_ic(k, lit("gatherlogging")) && !eq_ic(k, lit("gathermining")) && !eq_ic(k, lit("gatherore")) && !eq_ic(k, lit("gatheritems")) && !eq_ic(k, lit("gathergear")) && !eq_ic(k, lit("gatherunarmed")) && !eq_ic(k, lit("scanrange")) && !eq_ic(k, lit("gatherrange")) && !eq_ic(k, lit("gatherinterval")) && !eq_ic(k, lit("nodecooldown")) && !eq_ic(k, lit("stacklimit"))) ==> after == before
        }),
{
    assert(ls.push(SpecLine::Pair(k, v)).drop_last() =~= ls);
    lemma_menu_names_apart(k);
}

/// Whether `k` names one of the looter's switches.
pub open spec fn looter_switch(k: Seq<u8>) -> bool {
    ||| eq_ic(k, lit("enabled"))
    ||| eq_ic(k, lit("autogather"))
    ||| eq_ic(k, lit("gatherforaging"))
    ||| eq_ic(k, lit("gatherlogging"))
    ||| eq_ic(k, lit("gathermining"))
    ||| eq_ic(k, lit("gatherore"))
    ||| eq_ic(k, lit("gatheritems"))
    ||| eq_ic(k, lit("gathergear"))
    ||| eq_ic(k, lit("gatherunarmed"))
}

impl LooterModel {
    #[verifier::rlimit(30)]
    fn set_switch(&mut self, k: &[u8], v: &[u8]) -> (hit: bool)
        ensures
            hit == looter_switch(k@),
            hit ==> final(self)@ == looter_step(old(self)@, SpecLine::Pair(k@, v@)),
            !hit ==> final(self)@ == old(self)@,
    {
        if eq_ic_exec(k, "enabled".as_bytes()) {
            self.enabled = parse_bool(v);
        } else if eq_ic_exec(k, "autogather".as_bytes()) {
            self.auto_gather = parse_bool(v);
        } else if eq_ic_exec(k, "gatherforaging".as_bytes()) {
            self.gather_foraging = parse_bool(v);
        } else if eq_ic_exec(k, "gatherlogging".as_bytes()) {
            self.gather_logging = parse_bool(v);
        } else if eq_ic_exec(k, "gathermining".as_bytes()) {
            self.gather_mining = parse_bool(v);
        } else if eq_ic_exec(k, "gatherore".as_bytes()) {
            self.gather_ore = parse_bool(v);
        } else if eq_ic_exec(k, "gatheritems".as_bytes()) {
            self.gather_items = parse_bool(v);
        } else if eq_ic_exec(k, "gathergear".as_bytes()) {
            self.gather_gear = parse_bool(v);
        } else if eq_ic_exec(k, "gatherunarmed".as_bytes()) {
            self.gather_unarmed = parse_bool(v);
        } else {
            return false;
        }
        true
    }

    #[verifier::rlimit(30)]
    fn set_number(&mut self, k: &[u8], v: &[u8])
        requires
            !looter_switch(k@),
        ensures
            final(self)@ == looter_step(old(self)@, SpecLine::Pair(k@, v@)),
    {
        if eq_ic_exec(k, "scanrange".as_bytes()) {
            let ghost before = self.ranges@;
            self.ranges.push((RangeKey::Scan, vstd::slice::slice_to_vec(v)));
            proof {
                assert(ranges_view(self.ranges@) =~= ranges_view(before).push((RangeKey::Scan, v@)));
            }
        } else if eq_ic_exec(k, "gatherrange".as_bytes()) {
            let ghost before = self.ranges@;
            self.ranges.push((RangeKey::Gather, vstd::slice::slice_to_vec(v)));
            proof {
                assert(ranges_view(self.ranges@) =~= ranges_view(before).push((RangeKey::Gather, v@)));
            }
        } else if eq_ic_exec(k, "gatherinterval".as_bytes()) {
            self.gather_interval_ms = clamp_i32(v, MS_RANGE.0, MS_RANGE.1, self.gather_interval_ms);
        } else if eq_ic_exec(k, "nodecooldown".as_bytes()) {
            self.node_cooldown_ms = clamp_i32(v, MS_RANGE.0, MS_RANGE.1, self.node_cooldown_ms);
        } else if eq_ic_exec(k, "stacklimit".as_bytes()) {
            self.stack_limit = clamp_i32(v, STACK_LIMIT_RANGE.0, STACK_LIMIT_RANGE.1, self.stack_limit);
        }
    }

    /// Read the looter's keys out of ini text: the switches as the looter
    /// reads them, the whole numbers kept when they parse and lie in range
    /// and else left as they were, and the decimal keys' values as written.
    pub fn parse(text: &str) -> (r: LooterModel)
        ensures
            r@ == looter_lines(lines_spec(text.spec_bytes())),
    {
        let ls = lines(text.as_bytes());
        let ghost all = lines_spec(text.spec_bytes());
        let mut m = LooterModel {
            enabled: true,
            auto_gather: false,
            gather_foraging: true,
            gather_logging: true,
            gather_mining: true,
            gather_ore: true,
            gather_items: true,
            gather_gear: false,
            gather_unarmed: true,
            gather_interval_ms: 500,
            node_cooldown_ms: 8000,
            stack_limit: 999,
            ranges: Vec::new(),
        };
        proof {
            assert(ranges_view(m.ranges@) =~= Seq::empty());
            assert(all.take(0) =~= Seq::<SpecLine>::empty());
        }
        let mut i: usize = 0;
        while i < ls.len()
            invariant
                lines_view(ls@) == all,
                0 <= i <= ls.len(),
                m@ == looter_lines(all.take(i as int)),
            decreases ls.len() - i,
        {
            proof {
                assert(all.take(i + 1).drop_last() =~= all.take(i as int));
                assert(all.take(i + 1).last() == ls@[i as int]@);
            }
            match &ls[i] {
                Line::Pair(k, v) => {
                    let k = k.as_slice();
                    let v = v.as_slice();
                    if !m.set_switch(k, v) {
                        m.set_number(k, v);
                    }
                },
                Line::Bad(_) => {},
            }
            i = i + 1;
        }
        proof {
            assert(all.take(ls.len() as int) =~= all);
        }
        m
    }
}

} // verus!
