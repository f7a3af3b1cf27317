//! Which node the looter goes for next: over the nearby candidates, nearest
//! first, the first one the settings allow.
//!
//! The caller does what needs floating point: it keeps the actors within
//! `GatherRange`, sorts them by distance and says whether an unarmed node has
//! an armed twin at the same spot. The creature classes and the gather
//! families by record come from tables the caller hands in.

use vstd::prelude::*;
use vstd::string::StringSliceAdditionalSpecFns;
use vstd::utf8::*;

use crate::looter::actors::{
    gimmick_record_index, gimmick_record_index_spec, is_basic_item_record, is_gear_item_record, is_owned_or_special,
    status_bytes, status_bytes_spec, Kind,
};
use crate::looter::config::{allows_family_spec, never_forge_pickup, Config, Family, WELL_BUCKET_RECORD_KEY, WELL_BUCKET_RECORD_NAME};
use crate::looter::game::{category_text, hex2};
use crate::looter::actors::interaction_category_spec;
use crate::looter::memory::{u32_at, MainModule, Memory, SpecRegion};
use crate::looter::payload::PickupMode;
use crate::looter::tables::{
    gimmick_record, gimmick_record_key, gimmick_record_name, name_behind, record_spec, TableSlots, GIMMICK_KEY_OFF,
};
use crate::strings::{dec_spec, lemma_dec_ascii, lemma_ascii_encode, lit, push_dec, push_str, str_eq, utf8_string};
use crate::text::has_prefix;

verus! {

// ---------------------------------------------------------------------------
// A node's identity
// ---------------------------------------------------------------------------

/// A gather node's record: its index, the record's key and name when they
/// read, and its gather family.
pub struct NodeIdentity {
    pub index: u16,
    pub key: Option<u32>,
    pub name: Option<String>,
    pub family: Option<Family>,
}

pub struct NodeIdentityView {
    pub index: u16,
    pub key: Option<u32>,
    pub name: Option<Seq<char>>,
    pub family: Option<Family>,
}

impl View for NodeIdentity {
    type V = NodeIdentityView;

    open spec fn view(&self) -> NodeIdentityView {
        NodeIdentityView {
            index: self.index,
            key: self.key,
            name: match self.name {
                Some(s) => Some(s@),
                None => None,
            },
            family: self.family,
        }
    }
}

/// The family of the first entry of `families` with key `key`.
pub open spec fn family_by_key(families: Seq<(u32, Family)>, key: u32) -> Option<Family>
    decreases families.len(),
{
    if families.len() == 0 {
        None
    } else if families[0].0 == key {
        Some(families[0].1)
    } else {
        family_by_key(families.skip(1), key)
    }
}

/// The family of the first entry of `names` naming `name` exactly.
pub open spec fn family_by_name(names: Seq<(Seq<char>, Family)>, name: Seq<char>) -> Option<Family>
    decreases names.len(),
{
    if names.len() == 0 {
        None
    } else if names[0].0 == name {
        Some(names[0].1)
    } else {
        family_by_name(names.skip(1), name)
    }
}

pub open spec fn names_view(names: Seq<(String, Family)>) -> Seq<(Seq<char>, Family)> {
    names.map_values(|p: (String, Family)| (p.0@, p.1))
}

/// A node's identity: its gimmick record by index, the record's key and
/// name, and the family of the key, else of the name.
pub open spec fn node_identity_spec(
    m: Seq<SpecRegion>,
    md: MainModule,
    slots: TableSlots,
    actor: int,
    families: Seq<(u32, Family)>,
    names: Seq<(Seq<char>, Family)>,
    name_chars: Option<Seq<char>>,
) -> Option<NodeIdentityView> {
    match gimmick_record_index_spec(m, md, actor) {
        None => None,
        Some(index) => {
            let rec = record_spec(m, md, slots.gimmick, index as int);
            let key = match rec {
                Some(r) => u32_at(m, r + GIMMICK_KEY_OFF),
                None => None,
            };
            let by_key = match key {
                Some(k) => family_by_key(families, k),
                None => None,
            };
            let family = match by_key {
                Some(f) => Some(f),
                None => match name_chars {
                    Some(n) => family_by_name(names, n),
                    None => None,
                },
            };
            Some(NodeIdentityView { index, key, name: name_chars, family })
        },
    }
}

fn family_of_key(families: &[(u32, Family)], key: u32) -> (r: Option<Family>)
    ensures
        r == family_by_key(families@, key),
{
    let mut i: usize = 0;
    assert(families@.skip(0) =~= families@);
    while i < families.len()
        invariant
            0 <= i <= families@.len(),
            family_by_key(families@, key) == family_by_key(families@.skip(i as int), key),
        decreases families@.len() - i,
    {
        proof {
            assert(families@.skip(i as int)[0] == families@[i as int]);
            assert(families@.skip(i as int).skip(1) =~= families@.skip(i + 1));
        }
        if families[i].0 == key {
            return Some(families[i].1);
        }
        i = i + 1;
    }
    None
}

fn family_of_name(names: &[(String, Family)], name: &str) -> (r: Option<Family>)
    ensures
        r == family_by_name(names_view(names@), name@),
{
    let ghost nv = names_view(names@);
    let mut i: usize = 0;
    assert(nv.skip(0) =~= nv);
    while i < names.len()
        invariant
            0 <= i <= names@.len(),
            nv == names_view(names@),
            nv.len() == names@.len(),
            family_by_name(nv, name@) == family_by_name(nv.skip(i as int), name@),
        decreases names@.len() - i,
    {
        proof {
            assert(nv.skip(i as int)[0] == nv[i as int]);
            assert(nv[i as int] == (names@[i as int].0@, names@[i as int].1));
            assert(nv.skip(i as int).skip(1) =~= nv.skip(i + 1));
        }
        if str_eq(names[i].0.as_str(), name) {
            return Some(names[i].1);
        }
        i = i + 1;
    }
    None
}

/// A gather node's identity, the family looked up in `families` by the
/// record's key and, failing that, in `names` by the record's name.
pub fn node_identity(
    mem: &Memory,
    md: &MainModule,
    slots: &TableSlots,
    actor: usize,
    families: &[(u32, Family)],
    names: &[(String, Family)],
) -> (r: Option<NodeIdentity>)
    ensures
        match gimmick_record_index_spec(mem@, *md, actor as int) {
            None => r is None,
            Some(index) => r matches Some(id) && {
                let rec = record_spec(mem@, *md, slots.gimmick, index as int);
                &&& id.name is Some <==> (rec matches Some(p) && name_behind(mem@, p as int, 0x10) is Some)
                &&& (id.name matches Some(s) ==> rec matches Some(p) && encode_utf8(s@) == name_behind(mem@, p as int, 0x10)->0)
                &&& Some(id@) == node_identity_spec(mem@, *md, *slots, actor as int, families@, names_view(names@), id@.name)
            },
        },
{
    let index = match gimmick_record_index(mem, md, actor) {
        Some(i) => i,
        None => return None,
    };
    let rec = gimmick_record(mem, md, slots, index);
    let key = match rec {
        Some(r) => gimmick_record_key(mem, r),
        None => None,
    };
    let name = match rec {
        Some(r) => gimmick_record_name(mem, r),
        None => None,
    };
    let by_key = match key {
        Some(k) => family_of_key(families, k),
        None => None,
    };
    let family = match by_key {
        Some(f) => Some(f),
        None => match &name {
            Some(n) => family_of_name(names, n.as_str()),
            None => None,
        },
    };
    Some(NodeIdentity { index, key, name, family })
}

// ---------------------------------------------------------------------------
// Choosing the target
// ---------------------------------------------------------------------------

/// A creature's class, as the catch tables tell it.
#[derive(Debug, Clone, Copy, PartialEq, Eq, Structural)]
pub enum CatchClass {
    Bug,
    Fish,
    /// A class no recorded catch has shown: never caught.
    Unknown(u8),
}

/// One actor within range, nearest first: its entity id and address, its
/// kind, for a creature its class (`None` when it did not read), whether an
/// armed node stands at the same spot, and for a node its identity.
pub struct Candidate {
    pub eid: u32,
    pub actor: usize,
    pub kind: Kind,
    pub catch: Option<CatchClass>,
    pub armed_twin: bool,
    pub identity: Option<NodeIdentity>,
}

pub struct CandidateView {
    pub eid: u32,
    pub actor: usize,
    pub kind: Kind,
    pub catch: Option<CatchClass>,
    pub armed_twin: bool,
    pub identity: Option<NodeIdentityView>,
}

pub open spec fn cand_v(c: Candidate) -> CandidateView {
    CandidateView {
        eid: c.eid,
        actor: c.actor,
        kind: c.kind,
        catch: c.catch,
        armed_twin: c.armed_twin,
        identity: match c.identity {
            Some(id) => Some(id@),
            None => None,
        },
    }
}

pub open spec fn cands_view(v: Seq<Candidate>) -> Seq<CandidateView> {
    v.map_values(|c: Candidate| cand_v(c))
}

/// What the chosen target is.
#[derive(Debug, Clone, Copy, PartialEq, Eq, Structural)]
pub enum PickFamily {
    Bug,
    Fish,
    Item,
    Node(Family),
}

/// The chosen target: the candidate's index, its record (`0xFFFF` for a
/// creature, which has none), its name, what it is, how it is picked up and
/// whether the game has armed it.
pub struct GatherPick {
    pub index: usize,
    pub record: u16,
    pub name: String,
    pub family: PickFamily,
    pub mode: PickupMode,
    pub armed: bool,
}

/// Why nothing was chosen: unarmed nodes were seen while `GatherUnarmed` is
/// off (how many), nodes or creatures were passed over by a family switch
/// (how many), or there was nothing at all.
#[derive(Debug, Clone, Copy, PartialEq, Eq, Structural)]
pub enum NoTarget {
    UnarmedOff(usize),
    FamiliesOff(usize),
    Nothing,
}

pub open spec fn pick_v(p: GatherPick) -> (usize, u16, Seq<u8>, PickFamily, PickupMode, bool) {
    (p.index, p.record, encode_utf8(p.name@), p.family, p.mode, p.armed)
}

pub open spec fn result_v(r: Result<GatherPick, NoTarget>) -> Result<(usize, u16, Seq<u8>, PickFamily, PickupMode, bool), NoTarget> {
    match r {
        Ok(p) => Ok(pick_v(p)),
        Err(e) => Err(e),
    }
}

/// A node's name: the record's, else `rec` and its index.
pub open spec fn node_name(id: NodeIdentityView) -> Seq<u8> {
    match id.name {
        Some(n) => encode_utf8(n),
        None => lit("rec") + dec_spec(id.index as nat),
    }
}

/// The records the looter never forges a pickup at (`never_forge_pickup`).
pub open spec fn forbidden(id: NodeIdentityView) -> bool {
    id.key == Some(WELL_BUCKET_RECORD_KEY) || (id.name matches Some(n) && n == WELL_BUCKET_RECORD_NAME@)
}

/// An item on the ground is a candidate only when its status reads and it
/// is not owned or special (shop goods, quest items, decoration).
pub open spec fn item_free(m: Seq<SpecRegion>, md: MainModule, actor: int) -> bool {
    match status_bytes_spec(m, md, actor) {
        Some(st) => !(st.kind == 1 || st.kind == 0x0F || st.kind == 0x11),
        None => false,
    }
}

/// A creature's name: `bug cat=XX` or `fish cat=XX`.
pub open spec fn creature_name(m: Seq<SpecRegion>, md: MainModule, actor: int, what: Seq<u8>) -> Seq<u8> {
    what + lit(" cat=") + match interaction_category_spec(m, md, actor) {
        Some(c) => hex2(c),
        None => seq![0x3Fu8],
    }
}

pub open spec fn no_target(cfg: Config, unarmed: nat, off: nat) -> NoTarget {
    if unarmed > 0 && !cfg.gather_unarmed {
        NoTarget::UnarmedOff(unarmed as usize)
    } else if off > 0 {
        NoTarget::FamiliesOff(off as usize)
    } else {
        NoTarget::Nothing
    }
}

/// The first acceptable candidate from `i` on, having seen `unarmed` unarmed
/// nodes and passed `off` over by a family switch before it.
pub open spec fn pick_from(
    m: Seq<SpecRegion>,
    md: MainModule,
    cands: Seq<CandidateView>,
    cfg: Config,
    skip: Seq<u32>,
    i: int,
    unarmed: nat,
    off: nat,
) -> Result<(usize, u16, Seq<u8>, PickFamily, PickupMode, bool), NoTarget>
    decreases cands.len() - i,
{
    if i < 0 || i >= cands.len() {
        Err(no_target(cfg, unarmed, off))
    } else {
        let c = cands[i];
        if c.kind == Kind::Catchable {
            match c.catch {
                Some(CatchClass::Bug) => if !cfg.gather_bugs {
                    pick_from(m, md, cands, cfg, skip, i + 1, unarmed, off + 1)
                } else if skip.contains(c.eid) {
                    pick_from(m, md, cands, cfg, skip, i + 1, unarmed, off)
                } else {
                    Ok((i as usize, 0xFFFFu16, creature_name(m, md, c.actor as int, lit("bug")), PickFamily::Bug, PickupMode::Catch, true))
                },
                Some(CatchClass::Fish) => if !cfg.gather_fish {
                    pick_from(m, md, cands, cfg, skip, i + 1, unarmed, off + 1)
                } else if skip.contains(c.eid) {
                    pick_from(m, md, cands, cfg, skip, i + 1, unarmed, off)
                } else {
                    Ok((i as usize, 0xFFFFu16, creature_name(m, md, c.actor as int, lit("fish")), PickFamily::Fish, PickupMode::Catch, true))
                },
                _ => pick_from(m, md, cands, cfg, skip, i + 1, unarmed, off),
            }
        } else if c.kind == Kind::Gather || c.kind == Kind::Unarmed || c.kind == Kind::Item {
            let un = if c.kind == Kind::Unarmed { unarmed + 1 } else { unarmed };
            if c.kind == Kind::Item && !item_free(m, md, c.actor as int) {
                pick_from(m, md, cands, cfg, skip, i + 1, unarmed, off)
            } else if c.kind == Kind::Unarmed && (!cfg.gather_unarmed || c.armed_twin) {
                pick_from(m, md, cands, cfg, skip, i + 1, un, off)
            } else if skip.contains(c.eid) {
                pick_from(m, md, cands, cfg, skip, i + 1, un, off)
            } else {
                match c.identity {
                    None => pick_from(m, md, cands, cfg, skip, i + 1, un, off),
                    Some(id) => if forbidden(id) {
                        pick_from(m, md, cands, cfg, skip, i + 1, un, off)
                    } else if c.kind == Kind::Item {
                        let name = node_name(id);
                        if !cfg.gather_items || !has_prefix(name, lit("item_basic")) || (!cfg.gather_gear && has_prefix(name, lit("item_basic_equip"))) {
                            pick_from(m, md, cands, cfg, skip, i + 1, un, off)
                        } else {
                            Ok((i as usize, id.index, name, PickFamily::Item, PickupMode::Item, false))
                        }
                    } else {
                        match id.family {
                            None => pick_from(m, md, cands, cfg, skip, i + 1, un, off),
                            Some(f) => if !allows_family_spec(cfg, f) {
                                pick_from(m, md, cands, cfg, skip, i + 1, un, off + 1)
                            } else {
                                Ok((i as usize, id.index, node_name(id), PickFamily::Node(f), PickupMode::Gather, c.kind == Kind::Gather))
                            },
                        }
                    },
                }
            }
        } else {
            pick_from(m, md, cands, cfg, skip, i + 1, unarmed, off)
        }
    }
}

/// What any pick from `i` on satisfies, for creatures as for nodes and
/// items: the chosen candidate lies at or after `i`, its eid is not on the
/// skip list, and the switch that governs what it is was on: a bug only with
/// `GatherBugs`, a fish only with `GatherFish`, a ground item only with
/// `GatherItems` (gear only with `GatherGear` too) and a free status, a node
/// only with its own family's switch, an unarmed node only with
/// `GatherUnarmed` and no armed twin, and never the well bucket. (The
/// candidates are as many as an index can count.)
pub proof fn lemma_pick_is_allowed(
    m: Seq<SpecRegion>,
    md: MainModule,
    cands: Seq<CandidateView>,
    cfg: Config,
    skip: Seq<u32>,
    i: int,
    unarmed: nat,
    off: nat,
)
    requires
        cands.len() <= usize::MAX,
    ensures
        pick_from(m, md, cands, cfg, skip, i, unarmed, off) matches Ok(p) ==> {
            let c = cands[p.0 as int];
            &&& 0 <= i <= p.0 < cands.len()
            &&& !skip.contains(c.eid)
            &&& p.3 == PickFamily::Bug ==> c.kind == Kind::Catchable && c.catch == Some(CatchClass::Bug) && cfg.gather_bugs
            &&& p.3 == PickFamily::Fish ==> c.kind == Kind::Catchable && c.catch == Some(CatchClass::Fish) && cfg.gather_fish
            &&& c.kind == Kind::Catchable ==> p.3 == PickFamily::Bug || p.3 == PickFamily::Fish
            &&& p.3 == PickFamily::Item ==> {
                &&& c.kind == Kind::Item && cfg.gather_items && item_free(m, md, c.actor as int)
                &&& c.identity matches Some(id) && has_prefix(node_name(id), lit("item_basic"))
                    && (!cfg.gather_gear ==> !has_prefix(node_name(id), lit("item_basic_equip")))
            }
            &&& p.3 matches PickFamily::Node(f) ==> (c.kind == Kind::Gather || c.kind == Kind::Unarmed) && match f {
                Family::Foraging => cfg.gather_foraging,
                Family::Logging => cfg.gather_logging,
                Family::Mining => cfg.gather_mining,
                Family::Ore => cfg.gather_ore,
                Family::Money => cfg.gather_money,
            }
            &&& c.kind == Kind::Unarmed ==> cfg.gather_unarmed && !c.armed_twin
            &&& c.kind != Kind::Catchable ==> (c.identity matches Some(id) && !forbidden(id))
        },
    decreases cands.len() - i,
{
    if 0 <= i < cands.len() {
        lemma_pick_is_allowed(m, md, cands, cfg, skip, i + 1, unarmed, off);
        lemma_pick_is_allowed(m, md, cands, cfg, skip, i + 1, unarmed, off + 1);
        lemma_pick_is_allowed(m, md, cands, cfg, skip, i + 1, unarmed + 1, off);
        lemma_pick_is_allowed(m, md, cands, cfg, skip, i + 1, unarmed + 1, off + 1);
    }
}

fn contains_eid(skip: &[u32], eid: u32) -> (r: bool)
    ensures
        r == skip@.contains(eid),
{
    let mut i: usize = 0;
    while i < skip.len()
        invariant
            0 <= i <= skip@.len(),
            forall|j: int| 0 <= j < i ==> skip@[j] != eid,
        decreases skip@.len() - i,
    {
        if skip[i] == eid {
            assert(skip@[i as int] == eid);
            return true;
        }
        i = i + 1;
    }
    false
}

fn creature_name_exec(mem: &Memory, md: &MainModule, actor: usize, what: &str) -> (r: String)
    ensures
        encode_utf8(r@) == creature_name(mem@, *md, actor as int, what.spec_bytes()),
{
    let cat = category_text(mem, md, actor);
    let mut out: Vec<u8> = Vec::new();
    push_str(&mut out, what);
    push_str(&mut out, " cat=");
    push_str(&mut out, cat.as_str());
    proof {
        let a = what.spec_bytes();
        let b = lit(" cat=");
        let c = encode_utf8(cat@);
        encode_utf8_valid_utf8(what@);
        encode_utf8_valid_utf8(" cat="@);
        encode_utf8_valid_utf8(cat@);
        valid_utf8_concat(a, b);
        valid_utf8_concat(a + b, c);
        assert(out@ =~= a + b + c);
    }
    utf8_string(out)
}

fn node_name_exec(id: &NodeIdentity) -> (r: String)
    ensures
        encode_utf8(r@) == node_name(id@),
{
    match &id.name {
        Some(n) => n.clone(),
        None => {
            let mut out: Vec<u8> = Vec::new();
            push_str(&mut out, "rec");
            push_dec(&mut out, id.index as u64);
            proof {
                encode_utf8_valid_utf8("rec"@);
                lemma_dec_ascii(id.index as nat);
                lemma_ascii_encode(dec_spec(id.index as nat));
                valid_utf8_concat(lit("rec"), dec_spec(id.index as nat));
            }
            utf8_string(out)
        },
    }
}

fn item_free_exec(mem: &Memory, md: &MainModule, actor: usize) -> (r: bool)
    ensures
        r == item_free(mem@, *md, actor as int),
{
    match status_bytes(mem, md, actor) {
        Some(st) => !is_owned_or_special(st),
        None => false,
    }
}

/// Picks the target among candidates sorted nearest first: the first
/// creature of a class whose switch is on, or the first node or ground item
/// that the unarmed switch, the skip list, the record refusal
/// (`never_forge_pickup`) and the item and family switches all let through.
/// When none is, says why, the unarmed switch before the family switches.
#[verifier::spinoff_prover]
#[verifier::rlimit(60)]
pub fn pick_gather_target(mem: &Memory, md: &MainModule, cands: &[Candidate], cfg: &Config, skip: &[u32]) -> (r: Result<GatherPick, NoTarget>)
    ensures
        result_v(r) == pick_from(mem@, *md, cands_view(cands@), *cfg, skip@, 0, 0, 0),
        r matches Ok(p) ==> p.index < cands@.len() && !skip@.contains(cands@[p.index as int].eid),
{
    let count: usize = cands.len();
    proof {
        assert(cands_view(cands@).len() == count);
        lemma_pick_is_allowed(mem@, *md, cands_view(cands@), *cfg, skip@, 0, 0, 0);
    }
    let ghost cv = cands_view(cands@);
    let mut unarmed: usize = 0;
    let mut off: usize = 0;
    let mut i: usize = 0;
    while i < cands.len()
        invariant
            0 <= i <= cands@.len(),
            cv == cands_view(cands@),
            cv.len() == cands@.len(),
            unarmed <= i,
            off <= i,
            pick_from(mem@, *md, cv, *cfg, skip@, 0, 0, 0) == pick_from(mem@, *md, cv, *cfg, skip@, i as int, unarmed as nat, off as nat),
        decreases cands@.len() - i,
    {
        let c = &cands[i];
        proof {
            assert(cv[i as int] == cand_v(cands@[i as int]));
        }
        if c.kind == Kind::Catchable {
            match c.catch {
                Some(CatchClass::Bug) => {
                    if !cfg.gather_bugs {
                        off = off + 1;
                    } else if !contains_eid(skip, c.eid) {
                        let name = creature_name_exec(mem, md, c.actor, "bug");
                        return Ok(GatherPick { index: i, record: 0xFFFF, name, family: PickFamily::Bug, mode: PickupMode::Catch, armed: true });
                    }
                },
                Some(CatchClass::Fish) => {
                    if !cfg.gather_fish {
                        off = off + 1;
                    } else if !contains_eid(skip, c.eid) {
                        let name = creature_name_exec(mem, md, c.actor, "fish");
                        return Ok(GatherPick { index: i, record: 0xFFFF, name, family: PickFamily::Fish, mode: PickupMode::Catch, armed: true });
                    }
                },
                _ => {},
            }
        } else if c.kind == Kind::Gather || c.kind == Kind::Unarmed || c.kind == Kind::Item {
            if c.kind == Kind::Item && !item_free_exec(mem, md, c.actor) {
            } else {
                if c.kind == Kind::Unarmed {
                    unarmed = unarmed + 1;
                }
                if c.kind == Kind::Unarmed && (!cfg.gather_unarmed || c.armed_twin) {
                } else if contains_eid(skip, c.eid) {
                } else {
                    match &c.identity {
                        None => {},
                        Some(id) => {
                            let name_ref = match &id.name {
                                Some(n) => Some(n.as_str()),
                                None => None,
                            };
                            if never_forge_pickup(id.key, name_ref) {
                            } else if c.kind == Kind::Item {
                                let name = node_name_exec(id);
                                let ns = name.as_str();
                                proof {
                                    assert(ns@ == name@);
                                }
                                let ok = cfg.gather_items && is_basic_item_record(ns)
                                    && !(!cfg.gather_gear && is_gear_item_record(ns));
                                if ok {
                                    return Ok(GatherPick { index: i, record: id.index, name, family: PickFamily::Item, mode: PickupMode::Item, armed: false });
                                }
                            } else {
                                match id.family {
                                    None => {},
                                    Some(f) => {
                                        if !cfg.allows_family(f) {
                                            off = off + 1;
                                        } else {
                                            let name = node_name_exec(id);
                                            return Ok(GatherPick {
                                                index: i,
                                                record: id.index,
                                                name,
                                                family: PickFamily::Node(f),
                                                mode: PickupMode::Gather,
                                                armed: c.kind == Kind::Gather,
                                            });
                                        }
                                    },
                                }
                            }
                        },
                    }
                }
            }
        }
        i = i + 1;
    }
    if unarmed > 0 && !cfg.gather_unarmed {
        Err(NoTarget::UnarmedOff(unarmed))
    } else if off > 0 {
        Err(NoTarget::FamiliesOff(off))
    } else {
        Err(NoTarget::Nothing)
    }
}

} // verus!

verus! {

// ---------------------------------------------------------------------------
// What a nearby actor is
// ---------------------------------------------------------------------------

/// The creature tables the catch and corpse rules read: the actor type
/// bytes a creature can have, and the interaction classes that are people.
pub struct CreatureTables {
    pub catchable_types: Vec<u8>,
    pub npc_classes: Vec<u8>,
}

/// `*(actor+0x88)`, then the type byte at `+1`.
pub open spec fn type_byte_spec(m: Seq<SpecRegion>, actor: int) -> Option<u8> {
    match crate::looter::memory::ptr_at(m, actor + 0x88) {
        Some(obj) => crate::looter::memory::u8_at(m, obj + 1),
        None => None,
    }
}

/// The actor's type byte reads and is one of the creature types.
pub open spec fn catchable_type(m: Seq<SpecRegion>, actor: int, types: Seq<u8>) -> bool {
    type_byte_spec(m, actor) matches Some(t) && types.contains(t)
}

/// A dead animal: a creature type, the dead flag set, and not a person's
/// interaction class.
pub open spec fn dead_animal_spec(m: Seq<SpecRegion>, md: MainModule, actor: int, types: Seq<u8>, npcs: Seq<u8>) -> bool {
    &&& catchable_type(m, actor, types)
    &&& status_bytes_spec(m, md, actor) matches Some(st) && st.flag == crate::looter::actors::DEAD_FLAG
    &&& !(interaction_category_spec(m, md, actor) matches Some(c) && npcs.contains(c))
}

/// A creature the game lets the player catch: a creature type, the status
/// kind 0, and a readable interaction class.
pub open spec fn catch_candidate(m: Seq<SpecRegion>, md: MainModule, actor: int, types: Seq<u8>) -> bool {
    &&& catchable_type(m, actor, types)
    &&& status_bytes_spec(m, md, actor) matches Some(st) && st.kind == 0
    &&& interaction_category_spec(m, md, actor) is Some
}

fn in_bytes(v: &[u8], b: u8) -> (r: bool)
    ensures
        r == v@.contains(b),
{
    let mut i: usize = 0;
    while i < v.len()
        invariant
            0 <= i <= v@.len(),
            forall|j: int| 0 <= j < i ==> v@[j] != b,
        decreases v@.len() - i,
    {
        if v[i] == b {
            assert(v@[i as int] == b);
            return true;
        }
        i = i + 1;
    }
    false
}

fn type_byte(mem: &Memory, actor: usize) -> (r: Option<u8>)
    ensures
        r == type_byte_spec(mem@, actor as int),
{
    match mem.ptr_at(actor, 0x88) {
        Some(obj) => mem.u8_at(obj, 1),
        None => None,
    }
}

fn catchable_type_exec(mem: &Memory, actor: usize, types: &[u8]) -> (r: bool)
    ensures
        r == catchable_type(mem@, actor as int, types@),
{
    match type_byte(mem, actor) {
        Some(t) => in_bytes(types, t),
        None => false,
    }
}

/// A dead animal, skinnable or not: the corpse rule without the drops test.
pub fn is_dead_animal(mem: &Memory, md: &MainModule, actor: usize, tables: &CreatureTables) -> (r: bool)
    ensures
        r == dead_animal_spec(mem@, *md, actor as int, tables.catchable_types@, tables.npc_classes@),
{
    if !catchable_type_exec(mem, actor, tables.catchable_types.as_slice()) {
        return false;
    }
    let dead = match status_bytes(mem, md, actor) {
        Some(st) => st.flag == crate::looter::actors::DEAD_FLAG,
        None => false,
    };
    if !dead {
        return false;
    }
    match crate::looter::actors::interaction_category(mem, md, actor) {
        Some(c) => !in_bytes(tables.npc_classes.as_slice(), c),
        None => true,
    }
}

/// A carcass the player could skin: a dead animal with its drops still on it.
pub fn is_skinnable_carcass(mem: &Memory, md: &MainModule, actor: usize, tables: &CreatureTables) -> (r: bool)
    ensures
        r == (dead_animal_spec(mem@, *md, actor as int, tables.catchable_types@, tables.npc_classes@)
            && crate::looter::actors::has_drops_spec(mem@, actor as int)),
{
    is_dead_animal(mem, md, actor, tables) && crate::looter::actors::carcass_has_drops(mem, actor)
}

/// Whether any of the components' class names holds `needle`.
pub open spec fn has_comp(comps: Seq<(usize, Seq<u8>)>, needle: Seq<u8>) -> bool {
    exists|j: int| 0 <= j < comps.len() && crate::text::has_sub(#[trigger] comps[j].1, needle)
}

fn has_comp_exec(comps: &Vec<(usize, String)>, needle: &str) -> (r: bool)
    ensures
        r == has_comp(crate::looter::actors::comps_view(comps@), needle.spec_bytes()),
{
    let ghost cv = crate::looter::actors::comps_view(comps@);
    let mut i: usize = 0;
    while i < comps.len()
        invariant
            0 <= i <= comps@.len(),
            cv == crate::looter::actors::comps_view(comps@),
            cv.len() == comps@.len(),
            forall|j: int| 0 <= j < i ==> !crate::text::has_sub(#[trigger] cv[j].1, needle.spec_bytes()),
        decreases comps@.len() - i,
    {
        let name = comps[i].1.as_str();
        proof {
            assert(cv[i as int] == (comps@[i as int].0, encode_utf8(comps@[i as int].1@)));
            assert(name@ == comps@[i as int].1@);
        }
        if crate::text::contains_sub(name.as_bytes(), needle.as_bytes()) {
            assert(crate::text::has_sub(cv[i as int].1, needle.spec_bytes()));
            return true;
        }
        i = i + 1;
    }
    false
}

/// What a nearby actor is, by the structural rules, given its node identity
/// when it has one. Among characters the dead test comes first: a dead animal
/// is a carcass, never a creature to catch, and a dead person is neither.
pub open spec fn classify_spec(
    m: Seq<SpecRegion>,
    md: MainModule,
    actor: usize,
    player: usize,
    types: Seq<u8>,
    npcs: Seq<u8>,
    id: Option<NodeIdentityView>,
) -> Kind {
    let comps = crate::looter::actors::component_names_spec(m, md, actor as int);
    if actor == player {
        Kind::Player
    } else if crate::looter::actors::eid_of(m, player as int) matches Some(peid)
        && crate::looter::actors::attached_of(m, actor as int) == Some(peid) {
        Kind::Equipment
    } else if has_comp(comps, lit("ClientAiActorComponent")) || has_comp(comps, lit("ClientCharacterControlActorComponent")) {
        if dead_animal_spec(m, md, actor as int, types, npcs) {
            if crate::looter::actors::has_drops_spec(m, actor as int) {
                Kind::Carcass
            } else {
                Kind::CarcassEmpty
            }
        } else if catch_candidate(m, md, actor as int, types) {
            Kind::Catchable
        } else {
            Kind::Character
        }
    } else if !has_comp(comps, lit("ClientGimmickActorComponent")) {
        Kind::Other
    } else {
        let gi = crate::looter::actors::gimmick_info_spec(m, md, actor as int);
        let has_inter = gi matches Some(g) && g.record_id is Some;
        let has_inst = gi matches Some(g) && (g.instance matches Some(i) && i != 0xFFFF_FFFF);
        if crate::looter::actors::refers_spec(m, actor as int, player as int) {
            Kind::Equipment
        } else if has_inter {
            if id matches Some(n) && n.family is Some {
                Kind::Gather
            } else {
                Kind::Interactable
            }
        } else if has_inst {
            Kind::Item
        } else if id matches Some(n) && n.family is Some {
            Kind::Unarmed
        } else if id matches Some(n) && (n.name matches Some(s) && has_prefix(encode_utf8(s), lit("item_"))) {
            Kind::Item
        } else {
            Kind::Inert
        }
    }
}

/// What a nearby actor is. `id` is the actor's node identity
/// (`node_identity`), which decides between the gimmick kinds.
#[verifier::spinoff_prover]
#[verifier::rlimit(40)]
pub fn classify(
    mem: &Memory,
    md: &MainModule,
    actor: usize,
    player: usize,
    tables: &CreatureTables,
    id: &Option<NodeIdentity>,
) -> (r: Kind)
    ensures
        r == classify_spec(mem@, *md, actor, player, tables.catchable_types@, tables.npc_classes@, match id {
            Some(n) => Some(n@),
            None => None,
        }),
{
    if actor == player {
        return Kind::Player;
    }
    if let Some(peid) = crate::looter::actors::actor_eid(mem, player) {
        if crate::looter::actors::attached_to(mem, actor) == Some(peid) {
            return Kind::Equipment;
        }
    }
    let comps = crate::looter::actors::component_names(mem, md, actor);
    if has_comp_exec(&comps, "ClientAiActorComponent") || has_comp_exec(&comps, "ClientCharacterControlActorComponent") {
        if is_dead_animal(mem, md, actor, tables) {
            return if crate::looter::actors::carcass_has_drops(mem, actor) { Kind::Carcass } else { Kind::CarcassEmpty };
        }
        let candidate = catchable_type_exec(mem, actor, tables.catchable_types.as_slice())
            && (match status_bytes(mem, md, actor) {
                Some(st) => st.kind == 0,
                None => false,
            }) && crate::looter::actors::interaction_category(mem, md, actor).is_some();
        return if candidate { Kind::Catchable } else { Kind::Character };
    }
    if !has_comp_exec(&comps, "ClientGimmickActorComponent") {
        return Kind::Other;
    }
    let gi = crate::looter::actors::gimmick_info(mem, md, actor);
    let has_inter = match &gi {
        Some(g) => g.record_id.is_some(),
        None => false,
    };
    let has_inst = match &gi {
        Some(g) => match g.instance {
            Some(i) => i != 0xFFFF_FFFF,
            None => false,
        },
        None => false,
    };
    if crate::looter::actors::refers_to_player(mem, actor, player) {
        return Kind::Equipment;
    }
    if has_inter {
        return match id {
            Some(n) if n.family.is_some() => Kind::Gather,
            _ => Kind::Interactable,
        };
    }
    if has_inst {
        return Kind::Item;
    }
    match id {
        Some(n) => {
            if n.family.is_some() {
                Kind::Unarmed
            } else {
                match &n.name {
                    Some(s) => {
                        let ss = s.as_str();
                        proof {
                            assert(ss@ == s@);
                        }
                        if crate::looter::actors::is_ground_item_record(ss) { Kind::Item } else { Kind::Inert }
                    },
                    None => Kind::Inert,
                }
            }
        },
        None => Kind::Inert,
    }
}

} // verus!
