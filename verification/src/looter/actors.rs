//! Read-only view of the game's actor manager and its actors, over the
//! memory image of [`crate::looter::memory`].
//!
//! Layout knowledge: the per-frame sweep walks `{u32 count; u32 capacity;
//! Actor** items}` headers inside the manager and its container;
//! `actor+0x60` is the entity id (the player's starts with 0xA0);
//! `actor+0x68` is the component block, whose `+0x1A0` is the transform, whose
//! `+0xC8` is the entity the actor is attached to.

use vstd::prelude::*;

use vstd::string::StringSliceAdditionalSpecFns;
use vstd::utf8::encode_utf8;

use crate::looter::memory::{
    cstr_at, i16_at, i64_at, ptr_at, readable, u16_at, u32_at, u64_at, u8_at, MainModule, Memory,
    SpecRegion,
};
use crate::looter::memory::offset;
use crate::strings::{hex_upper, lemma_hex_upper_ascii, lit, push_hex_upper};
use crate::text::{contains_sub, ends_with, first_index, has_prefix, has_sub, has_suffix, lemma_first_index, starts_with, find_byte, push_range};
use crate::utf8_cuts::lemma_split_at_ascii;
use crate::strings::{string_of, utf8_string};

verus! {

pub const MAX_ACTORS: usize = 4000;
/// Manager object size from its constructor's allocation.
pub const MANAGER_SIZE: usize = 0x498;
/// Container object hanging off the manager.
pub const CONTAINER_OFF: usize = 0x008;
/// The player actor hangs directly off the manager.
pub const PLAYER_OFF: usize = 0x050;
/// How much of the container to scan for list headers.
pub const CONTAINER_SCAN: usize = 0x800;
/// The entity-id map inside the container.
pub const EIDMAP_OFF: usize = 0x88;
/// Inside each value slot of the map: the eid and the actor.
pub const SLOT_EID_OFF: usize = 0x04;
pub const SLOT_ACTOR_OFF: usize = 0x08;

/// The entity id of an actor.
pub open spec fn eid_of(m: Seq<SpecRegion>, actor: int) -> Option<u32> {
    u32_at(m, actor + 0x60)
}

pub fn actor_eid(mem: &Memory, actor: usize) -> (r: Option<u32>)
    ensures
        r == eid_of(mem@, actor as int),
{
    mem.u32_at(actor, 0x60)
}

/// The player's entity ids start with 0xA0.
pub open spec fn player_eid(eid: u32) -> bool {
    eid / 0x0100_0000 == 0xA0
}

pub fn is_player_eid(eid: u32) -> (r: bool)
    ensures
        r == player_eid(eid),
{
    eid / 0x0100_0000 == 0xA0
}

pub open spec fn is_player_actor(m: Seq<SpecRegion>, a: int) -> bool {
    eid_of(m, a) matches Some(e) && player_eid(e)
}

/// The player actor hanging off the manager: readable, and carrying a
/// player's entity id.
pub open spec fn player_of(m: Seq<SpecRegion>, manager: int) -> Option<usize> {
    match ptr_at(m, manager + PLAYER_OFF) {
        Some(a) if readable(m, a as int, 0x100) && is_player_actor(m, a as int) => Some(a),
        _ => None,
    }
}

pub fn player_actor(mem: &Memory, manager: usize) -> (r: Option<usize>)
    ensures
        r == player_of(mem@, manager as int),
{
    match mem.ptr_at(manager, PLAYER_OFF) {
        Some(a) => {
            if mem.readable(a, 0x100) {
                match actor_eid(mem, a) {
                    Some(e) => if is_player_eid(e) { Some(a) } else { None },
                    None => None,
                }
            } else {
                None
            }
        },
        None => None,
    }
}

/// A `{u32 count; u32 capacity; Actor** items}` header.
#[derive(Debug, Clone, Copy, PartialEq, Eq, Structural)]
pub struct ActorList {
    pub header_off: usize,
    pub count: u32,
    pub capacity: u32,
    pub items: usize,
}

/// Item `i` of a list, when it is a readable actor.
pub open spec fn actor_item(m: Seq<SpecRegion>, items: int, i: int) -> Option<usize> {
    match ptr_at(m, items + 8 * i) {
        Some(a) if readable(m, a as int, 0x100) => Some(a),
        _ => None,
    }
}

/// The readable actors among the first `n` items.
pub open spec fn actors_upto(m: Seq<SpecRegion>, items: int, n: int) -> Seq<usize>
    decreases n,
{
    if n <= 0 {
        seq![]
    } else {
        let p = actors_upto(m, items, n - 1);
        match actor_item(m, items, n - 1) {
            Some(a) => p.push(a),
            None => p,
        }
    }
}

pub open spec fn list_actors(m: Seq<SpecRegion>, l: ActorList) -> Seq<usize> {
    actors_upto(m, l.items as int, if l.count < MAX_ACTORS { l.count as int } else { MAX_ACTORS as int })
}

impl ActorList {
    /// Non-null, readable actor pointers, at most `MAX_ACTORS`.
    pub fn actors(&self, mem: &Memory) -> (r: Vec<usize>)
        ensures
            r@ == list_actors(mem@, *self),
    {
        let n: usize = if (self.count as usize) < MAX_ACTORS { self.count as usize } else { MAX_ACTORS };
        let mut out: Vec<usize> = Vec::new();
        let mut i: usize = 0;
        while i < n
            invariant
                n <= MAX_ACTORS,
                n == (if self.count < MAX_ACTORS { self.count as int } else { MAX_ACTORS as int }),
                0 <= i <= n,
                out@ == actors_upto(mem@, self.items as int, i as int),
            decreases n - i,
        {
            match mem.ptr_at(self.items, i * 8) {
                Some(a) => {
                    if mem.readable(a, 0x100) {
                        out.push(a);
                    }
                },
                None => {},
            }
            i = i + 1;
        }
        out
    }
}

/// The list a header at `obj + off` describes, when it looks like one.
pub open spec fn list_at(m: Seq<SpecRegion>, obj: int, off: int) -> Option<ActorList> {
    match (u32_at(m, obj + off), u32_at(m, obj + off + 4), ptr_at(m, obj + off + 8)) {
        (Some(count), Some(capacity), Some(items)) => if count == 0 || capacity == 0 || count
            > capacity || capacity > 0x10000 {
            None
        } else if !readable(m, items as int, 8 * count) {
            None
        } else {
            Some(ActorList { header_off: off as usize, count, capacity, items })
        },
        _ => None,
    }
}

/// The headers found at the first `k` offsets `8, 16, ...`.
pub open spec fn lists_upto(m: Seq<SpecRegion>, obj: int, k: int) -> Seq<ActorList>
    decreases k,
{
    if k <= 0 {
        seq![]
    } else {
        let p = lists_upto(m, obj, k - 1);
        match list_at(m, obj, 8 * k) {
            Some(l) => p.push(l),
            None => p,
        }
    }
}

/// How many offsets `(0x08..size.saturating_sub(0x10)).step_by(8)` visits.
pub open spec fn header_slots(size: int) -> int {
    let end = if size > 0x10 { size - 0x10 } else { 0 };
    if end > 8 { (end - 8 + 7) / 8 } else { 0 }
}

/// Every list-shaped header inside `obj[..size]`.
pub fn candidate_lists_in(mem: &Memory, obj: usize, size: usize) -> (r: Vec<ActorList>)
    ensures
        r@ == lists_upto(mem@, obj as int, header_slots(size as int)),
{
    let end: usize = if size > 0x10 { size - 0x10 } else { 0 };
    let mut out: Vec<ActorList> = Vec::new();
    let mut off: usize = 8;
    let ghost mut k: int = 0;
    while off < end
        invariant
            end == (if size > 0x10 { size - 0x10 } else { 0 }),
            off == 8 * (k + 1),
            0 <= k <= header_slots(size as int),
            off < end ==> k < header_slots(size as int),
            off >= end ==> k == header_slots(size as int),
            out@ == lists_upto(mem@, obj as int, k),
        decreases header_slots(size as int) - k,
    {
        let found = match (mem.u32_at(obj, off), mem.u32_at(obj, off + 4), mem.ptr_at(obj, off + 8)) {
            (Some(count), Some(capacity), Some(items)) => {
                if count == 0 || capacity == 0 || count > capacity || capacity > 0x10000 {
                    None
                } else if !mem.readable(items, 8 * count as usize) {
                    None
                } else {
                    Some(ActorList { header_off: off, count, capacity, items })
                }
            },
            _ => None,
        };
        proof {
            assert(found == list_at(mem@, obj as int, 8 * (k + 1)));
        }
        match found {
            Some(l) => out.push(l),
            None => {},
        }
        proof {
            k = k + 1;
        }
        off = off + 8;
    }
    out
}

/// Lists inside the manager itself.
pub fn candidate_lists(mem: &Memory, manager: usize) -> (r: Vec<ActorList>)
    ensures
        r@ == lists_upto(mem@, manager as int, header_slots(MANAGER_SIZE as int)),
{
    candidate_lists_in(mem, manager, MANAGER_SIZE)
}

/// The container the manager points at, and the lists inside it.
pub open spec fn container_of(m: Seq<SpecRegion>, manager: int) -> Option<usize> {
    match ptr_at(m, manager + CONTAINER_OFF) {
        Some(c) if readable(m, c as int, 0x40) => Some(c),
        _ => None,
    }
}

pub fn container_lists(mem: &Memory, manager: usize) -> (r: Option<(usize, Vec<ActorList>)>)
    ensures
        match container_of(mem@, manager as int) {
            Some(c) => r matches Some(p) && p.0 == c && p.1@ == lists_upto(mem@, c as int, header_slots(CONTAINER_SCAN as int)),
            None => r is None,
        },
{
    let c = match mem.ptr_at(manager, CONTAINER_OFF) {
        Some(c) => c,
        None => return None,
    };
    if !mem.readable(c, 0x40) {
        return None;
    }
    Some((c, candidate_lists_in(mem, c, CONTAINER_SCAN)))
}

/// The entity-id map inside the container: `{u32 ?, u32 ?, u32 count, u32
/// buckets, Key* keys, Slot** values}`.
#[derive(Debug, Clone, Copy, PartialEq, Eq, Structural)]
pub struct EidMap {
    pub count: u32,
    pub capacity: u32,
    pub keys: usize,
    pub values: usize,
}

/// The map's header, when it reads and its value array is readable. The
/// bucket count is deliberately not range-checked: it grows with session
/// uptime and nothing enumerates by it.
pub open spec fn eid_map_of(m: Seq<SpecRegion>, container: int) -> Option<EidMap> {
    let base = container + EIDMAP_OFF;
    match (u32_at(m, base + 8), u32_at(m, base + 0xC), ptr_at(m, base + 0x10), ptr_at(m, base + 0x18)) {
        (Some(count), Some(capacity), Some(keys), Some(values)) => if count == 0 || count > 0x10000 {
            None
        } else if !readable(m, values as int, 8 * count) {
            None
        } else {
            Some(EidMap { count, capacity, keys, values })
        },
        _ => None,
    }
}

pub fn eid_map(mem: &Memory, container: usize) -> (r: Option<EidMap>)
    ensures
        r == eid_map_of(mem@, container as int),
{
    let base = match crate::looter::memory::offset(container, EIDMAP_OFF) {
        Some(b) => b,
        None => {
            proof {
                assert(u32_at(mem@, container + EIDMAP_OFF + 8) is None) by {
                    assert(crate::looter::memory::byte_at(mem@, container + EIDMAP_OFF + 8 + 0) is None);
                }
            }
            return None;
        },
    };
    let count = match mem.u32_at(base, 0x8) {
        Some(v) => v,
        None => return None,
    };
    let capacity = match mem.u32_at(base, 0xC) {
        Some(v) => v,
        None => return None,
    };
    let keys = match mem.ptr_at(base, 0x10) {
        Some(v) => v,
        None => return None,
    };
    let values = match mem.ptr_at(base, 0x18) {
        Some(v) => v,
        None => return None,
    };
    if count == 0 || count > 0x10000 {
        return None;
    }
    if !mem.readable(values, 8 * count as usize) {
        return None;
    }
    Some(EidMap { count, capacity, keys, values })
}

/// Value slot `i`: the eid it carries and its actor, when all of it reads
/// and the actor is readable.
pub open spec fn map_entry(m: Seq<SpecRegion>, values: int, i: int) -> Option<(u32, usize)> {
    match ptr_at(m, values + 8 * i) {
        Some(slot) => match (u32_at(m, slot + SLOT_EID_OFF), ptr_at(m, slot + SLOT_ACTOR_OFF)) {
            (Some(eid), Some(actor)) if readable(m, actor as int, 0x100) => Some((eid, actor)),
            _ => None,
        },
        None => None,
    }
}

pub open spec fn entries_upto(m: Seq<SpecRegion>, values: int, n: int) -> Seq<(u32, usize)>
    decreases n,
{
    if n <= 0 {
        seq![]
    } else {
        let p = entries_upto(m, values, n - 1);
        match map_entry(m, values, n - 1) {
            Some(e) => p.push(e),
            None => p,
        }
    }
}

impl EidMap {
    /// (eid from the slot, actor pointer from the slot), readable only. The
    /// key array is a hash chain and is not index-aligned with the values.
    pub fn entries(&self, mem: &Memory) -> (r: Vec<(u32, usize)>)
        ensures
            r@ == entries_upto(mem@, self.values as int, self.count as int),
    {
        let mut out: Vec<(u32, usize)> = Vec::new();
        let n = self.count as usize;
        let mut i: usize = 0;
        while i < n
            invariant
                n == self.count,
                0 <= i <= n,
                out@ == entries_upto(mem@, self.values as int, i as int),
            decreases n - i,
        {
            let slot = if i <= usize::MAX / 8 {
                mem.ptr_at(self.values, i * 8)
            } else {
                proof {
                    assert(crate::looter::memory::byte_at(mem@, self.values + 8 * i + 0) is None);
                }
                None
            };
            let e = match slot {
                Some(slot) => match (mem.u32_at(slot, SLOT_EID_OFF), mem.ptr_at(slot, SLOT_ACTOR_OFF)) {
                    (Some(eid), Some(actor)) => if mem.readable(actor, 0x100) {
                        Some((eid, actor))
                    } else {
                        None
                    },
                    _ => None,
                },
                None => None,
            };
            proof {
                assert(e == map_entry(mem@, self.values as int, i as int));
            }
            match e {
                Some(e) => out.push(e),
                None => {},
            }
            i = i + 1;
        }
        out
    }
}

/// The entity this actor is attached to (`transform+0xC8`), if any:
/// equipment is attached to the player.
pub open spec fn attached_of(m: Seq<SpecRegion>, actor: int) -> Option<u32> {
    match ptr_at(m, actor + 0x68) {
        Some(sub) => match ptr_at(m, sub + 0x1A0) {
            Some(tf) => match u32_at(m, tf + 0xC8) {
                Some(v) if v != 0 && v != 0xFFFF_FFFF => Some(v),
                _ => None,
            },
            None => None,
        },
        None => None,
    }
}

pub fn attached_to(mem: &Memory, actor: usize) -> (r: Option<u32>)
    ensures
        r == attached_of(mem@, actor as int),
{
    let sub = match mem.ptr_at(actor, 0x68) {
        Some(s) => s,
        None => return None,
    };
    let tf = match mem.ptr_at(sub, 0x1A0) {
        Some(t) => t,
        None => return None,
    };
    match mem.u32_at(tf, 0xC8) {
        Some(v) => if v != 0 && v != 0xFFFF_FFFF { Some(v) } else { None },
        None => None,
    }
}

/// Whether one of the actor's first 0x200 bytes' pointer words is the player
/// actor, or the player's component block.
pub open spec fn refers_spec(m: Seq<SpecRegion>, actor: int, player: int) -> bool {
    let player_sub = ptr_at(m, player + 0x68);
    exists|k: int|
        0 <= k < 64 && (#[trigger] ptr_at(m, actor + 8 * k) == Some(player as usize) || (
        player_sub is Some && ptr_at(m, actor + 8 * k) == player_sub))
}

pub fn refers_to_player(mem: &Memory, actor: usize, player: usize) -> (r: bool)
    ensures
        r == refers_spec(mem@, actor as int, player as int),
{
    let player_sub = mem.ptr_at(player, 0x68);
    let mut k: usize = 0;
    while k < 64
        invariant
            0 <= k <= 64,
            player_sub == ptr_at(mem@, player + 0x68),
            forall|j: int| 0 <= j < k ==> !(#[trigger] ptr_at(mem@, actor + 8 * j) == Some(player as usize) || (
                player_sub is Some && ptr_at(mem@, actor + 8 * j) == player_sub)),
        decreases 64 - k,
    {
        let v = mem.ptr_at(actor, 8 * k);
        if v == Some(player) || (player_sub.is_some() && v == player_sub) {
            return true;
        }
        k = k + 1;
    }
    false
}

// ---------------------------------------------------------------------------
// Picking the real actor list
// ---------------------------------------------------------------------------

/// A candidate list evaluated once: its readable actors and whether the
/// player is among them.
pub struct Evaluated {
    pub source: &'static str,
    pub list: ActorList,
    pub actors: Vec<usize>,
    pub has_player: bool,
}

pub struct EvalView {
    pub source: Seq<char>,
    pub list: ActorList,
    pub actors: Seq<usize>,
    pub has_player: bool,
}

impl View for Evaluated {
    type V = EvalView;

    open spec fn view(&self) -> EvalView {
        EvalView { source: self.source@, list: self.list, actors: self.actors@, has_player: self.has_player }
    }
}

pub open spec fn has_player_spec(m: Seq<SpecRegion>, actors: Seq<usize>) -> bool {
    exists|j: int| 0 <= j < actors.len() && is_player_actor(m, #[trigger] actors[j] as int)
}

pub open spec fn eval_of(m: Seq<SpecRegion>, source: Seq<char>, l: ActorList) -> EvalView {
    EvalView { source, list: l, actors: list_actors(m, l), has_player: has_player_spec(m, list_actors(m, l)) }
}

pub open spec fn evals_of(m: Seq<SpecRegion>, source: Seq<char>, lists: Seq<ActorList>) -> Seq<EvalView> {
    lists.map_values(|l: ActorList| eval_of(m, source, l))
}

pub open spec fn evals_view(v: Seq<Evaluated>) -> Seq<EvalView> {
    v.map_values(|e: Evaluated| e@)
}

fn any_player(mem: &Memory, actors: &Vec<usize>) -> (r: bool)
    ensures
        r == has_player_spec(mem@, actors@),
{
    let mut j: usize = 0;
    while j < actors.len()
        invariant
            0 <= j <= actors@.len(),
            forall|k: int| 0 <= k < j ==> !is_player_actor(mem@, #[trigger] actors@[k] as int),
        decreases actors@.len() - j,
    {
        match actor_eid(mem, actors[j]) {
            Some(e) => if is_player_eid(e) {
                return true;
            },
            None => {},
        }
        j = j + 1;
    }
    false
}

fn evaluate_into(mem: &Memory, source: &'static str, lists: &Vec<ActorList>, out: &mut Vec<Evaluated>)
    ensures
        evals_view(final(out)@) == evals_view(old(out)@) + evals_of(mem@, source@, lists@),
{
    let ghost start = evals_view(out@);
    let mut i: usize = 0;
    while i < lists.len()
        invariant
            0 <= i <= lists@.len(),
            evals_view(out@) == start + evals_of(mem@, source@, lists@.take(i as int)),
        decreases lists@.len() - i,
    {
        let list = lists[i];
        let actors = list.actors(mem);
        let has_player = any_player(mem, &actors);
        let ghost before = out@;
        out.push(Evaluated { source, list, actors, has_player });
        proof {
            assert(lists@.take(i + 1) =~= lists@.take(i as int).push(list));
            assert(evals_view(out@) =~= evals_view(before).push(eval_of(mem@, source@, list)));
            assert(evals_of(mem@, source@, lists@.take(i + 1)) =~= evals_of(mem@, source@, lists@.take(i as int)).push(eval_of(mem@, source@, list)));
        }
        i = i + 1;
    }
    proof {
        assert(lists@.take(lists@.len() as int) =~= lists@);
    }
}

/// Each list with its readable actors and whether the player is among them.
pub fn evaluate(mem: &Memory, source: &'static str, lists: Vec<ActorList>) -> (r: Vec<Evaluated>)
    ensures
        evals_view(r@) == evals_of(mem@, source@, lists@),
{
    let mut out: Vec<Evaluated> = Vec::new();
    evaluate_into(mem, source, &lists, &mut out);
    assert(evals_view(Seq::<Evaluated>::empty()) =~= Seq::<EvalView>::empty());
    out
}

/// Every candidate list of the manager, then of its container.
pub fn evaluate_lists(mem: &Memory, manager: usize) -> (r: Vec<Evaluated>)
    ensures
        evals_view(r@) == evals_of(mem@, "mgr"@, lists_upto(mem@, manager as int, header_slots(MANAGER_SIZE as int)))
            + match container_of(mem@, manager as int) {
                Some(c) => evals_of(mem@, "ctr"@, lists_upto(mem@, c as int, header_slots(CONTAINER_SCAN as int))),
                None => Seq::<EvalView>::empty(),
            },
{
    let mut out = evaluate(mem, "mgr", candidate_lists(mem, manager));
    match container_lists(mem, manager) {
        Some((_, lists)) => {
            evaluate_into(mem, "ctr", &lists, &mut out);
        },
        None => {
            assert(evals_view(out@) + Seq::<EvalView>::empty() =~= evals_view(out@));
        },
    }
    out
}

/// The ordering key of a candidate: containing the player first, then the
/// most entries, then the largest capacity.
pub open spec fn list_key(e: EvalView) -> (int, int, int) {
    ((if e.has_player { 1int } else { 0int }), (e.actors.len() as u32) as int, e.list.capacity as int)
}

pub open spec fn key_lt(a: (int, int, int), b: (int, int, int)) -> bool {
    a.0 < b.0 || (a.0 == b.0 && (a.1 < b.1 || (a.1 == b.1 && a.2 < b.2)))
}

fn key_of(e: &Evaluated) -> (r: (u32, u32, u32))
    ensures
        (r.0 as int, r.1 as int, r.2 as int) == list_key(e@),
{
    (if e.has_player { 1 } else { 0 }, e.actors.len() as u32, e.list.capacity)
}

fn key_less(a: (u32, u32, u32), b: (u32, u32, u32)) -> (r: bool)
    ensures
        r == key_lt((a.0 as int, a.1 as int, a.2 as int), (b.0 as int, b.1 as int, b.2 as int)),
{
    a.0 < b.0 || (a.0 == b.0 && (a.1 < b.1 || (a.1 == b.1 && a.2 < b.2)))
}

/// The real actor list: contains the player, and among those the most
/// entries; of several equal, the last.
pub fn pick_actor_list(evaluated: Vec<Evaluated>) -> (r: Option<Evaluated>)
    ensures
        r is None <==> evaluated@.len() == 0,
        r matches Some(e) ==> exists|j: int|
            0 <= j < evaluated@.len() && #[trigger] evaluated@[j]@ == e@ && (forall|i: int|
                0 <= i < evaluated@.len() ==> !key_lt(list_key(e@), #[trigger] list_key(evaluated@[i]@)))
                && (forall|i: int| j < i < evaluated@.len() ==> key_lt(#[trigger] list_key(evaluated@[i]@), list_key(e@))),
{
    if evaluated.len() == 0 {
        return None;
    }
    let mut best: usize = 0;
    let mut best_key = key_of(&evaluated[0]);
    let mut i: usize = 1;
    while i < evaluated.len()
        invariant
            1 <= i <= evaluated@.len(),
            best < i,
            (best_key.0 as int, best_key.1 as int, best_key.2 as int) == list_key(evaluated@[best as int]@),
            forall|k: int| 0 <= k < i ==> !key_lt(list_key(evaluated@[best as int]@), #[trigger] list_key(evaluated@[k]@)),
            forall|k: int| best < k < i ==> key_lt(#[trigger] list_key(evaluated@[k]@), list_key(evaluated@[best as int]@)),
        decreases evaluated@.len() - i,
    {
        let k = key_of(&evaluated[i]);
        if !key_less(k, best_key) {
            best = i;
            best_key = k;
        }
        i = i + 1;
    }
    let ghost old_ev = evaluated@;
    let mut evaluated = evaluated;
    let e = evaluated.remove(best);
    assert(old_ev[best as int]@ == e@);
    Some(e)
}

// ---------------------------------------------------------------------------
// What an actor is
// ---------------------------------------------------------------------------

/// What a nearby actor is, by the structural rules.
#[derive(Debug, Clone, Copy, PartialEq, Eq, Structural)]
pub enum Kind {
    Player,
    Character,
    /// A creature the game lets the player catch by hand.
    Catchable,
    /// A dead animal the player can skin.
    Carcass,
    /// A dead animal with nothing left to give.
    CarcassEmpty,
    /// A gimmick whose record is a known gather record.
    Gather,
    /// A gimmick with an interaction object but some other record.
    Interactable,
    /// An item on the ground.
    Item,
    /// A gimmick referencing the player: equipment.
    Equipment,
    /// A gather node the game has not armed with an interaction object.
    Unarmed,
    /// A gimmick with neither object and no gather record.
    Inert,
    Other,
}

impl Kind {
    /// Every variant, so a test can assert a decision was recorded for each.
    pub const ALL: [Kind; 12] = [
        Kind::Player,
        Kind::Character,
        Kind::Catchable,
        Kind::Carcass,
        Kind::CarcassEmpty,
        Kind::Gather,
        Kind::Interactable,
        Kind::Item,
        Kind::Equipment,
        Kind::Unarmed,
        Kind::Inert,
        Kind::Other,
    ];

    /// Whether the gatherer may aim an event at this kind: the one
    /// definition both target selection and retirement ask.
    pub fn is_gather_candidate(self, skin_carcasses: bool) -> (r: bool)
        ensures
            r == match self {
                Kind::Gather | Kind::Unarmed | Kind::Item | Kind::Catchable => true,
                Kind::Carcass => skin_carcasses,
                _ => false,
            },
    {
        match self {
            Kind::Gather | Kind::Unarmed | Kind::Item | Kind::Catchable => true,
            Kind::Carcass => skin_carcasses,
            Kind::CarcassEmpty => false,
            Kind::Player | Kind::Character | Kind::Interactable | Kind::Equipment | Kind::Inert
            | Kind::Other => false,
        }
    }
}

/// Gimmick records that stand for a physical item lying on the ground.
pub fn is_ground_item_record(name: &str) -> (r: bool)
    ensures
        r == has_prefix(lit(name), lit("item_")),
{
    starts_with(name.as_bytes(), "item_".as_bytes())
}

/// Generic drops such as ore chunks, never quest or special items.
pub fn is_basic_item_record(name: &str) -> (r: bool)
    ensures
        r == has_prefix(lit(name), lit("item_basic")),
{
    starts_with(name.as_bytes(), "item_basic".as_bytes())
}

/// Dropped gear, taken only when `GatherGear=1`.
pub fn is_gear_item_record(name: &str) -> (r: bool)
    ensures
        r == has_prefix(lit(name), lit("item_basic_equip")),
{
    starts_with(name.as_bytes(), "item_basic_equip".as_bytes())
}

// ---------------------------------------------------------------------------
// Inventory
// ---------------------------------------------------------------------------

pub const INVENTORY_OFF: usize = 0xB8;
pub const INVENTORY_TABS_OFF: usize = 0x18;
pub const INVENTORY_TAB_COUNT_OFF: usize = 0x20;
pub const MAX_INVENTORY_TABS: u32 = 64;
pub const SLOT_STRIDE: usize = 200;
pub const MAX_SLOTS: i16 = 2000;

#[derive(Debug, Clone, Copy, PartialEq, Eq, Structural)]
pub struct InventoryTab {
    pub ptr: usize,
    pub id: i16,
    pub used: i16,
    pub max: i16,
}

/// One occupied slot of a tab.
#[derive(Debug, Clone, Copy, PartialEq, Eq, Structural)]
pub struct InventorySlot {
    pub slot: u16,
    pub item_index: u16,
    pub count: i64,
}

impl InventoryTab {
    /// Free slots, as the game computes them: `max - used`.
    pub fn free(&self) -> (r: i32)
        ensures
            r == self.max - self.used,
    {
        self.max as i32 - self.used as i32
    }
}

/// Slots `0..n` of a tab's slot array, or `None` when one of them does not
/// read.
pub open spec fn slots_upto(m: Seq<SpecRegion>, arr: int, n: int) -> Option<Seq<InventorySlot>>
    decreases n,
{
    if n <= 0 {
        Some(seq![])
    } else {
        match slots_upto(m, arr, n - 1) {
            None => None,
            Some(p) => {
                let s = arr + (n - 1) * SLOT_STRIDE;
                match u16_at(m, s + 8) {
                    None => None,
                    Some(idx) => if idx == 0xFFFF {
                        Some(p)
                    } else {
                        match i64_at(m, s + 0x10) {
                            None => None,
                            Some(count) => if count <= 0 {
                                Some(p)
                            } else {
                                Some(p.push(InventorySlot { slot: (n - 1) as u16, item_index: idx, count }))
                            },
                        }
                    },
                }
            },
        }
    }
}

pub open spec fn tab_slots_spec(m: Seq<SpecRegion>, tab: InventoryTab) -> Option<Seq<InventorySlot>> {
    match (ptr_at(m, tab.ptr as int), i16_at(m, tab.ptr + 8)) {
        (Some(arr), Some(cap)) => if cap <= 0 || cap > MAX_SLOTS {
            None
        } else {
            slots_upto(m, arr as int, cap as int)
        },
        _ => None,
    }
}

/// The occupied slots of a tab: item index not `0xFFFF`, count above zero.
pub fn tab_slots(mem: &Memory, tab: &InventoryTab) -> (r: Option<Vec<InventorySlot>>)
    ensures
        match tab_slots_spec(mem@, *tab) {
            Some(s) => r matches Some(v) && v@ == s,
            None => r is None,
        },
{
    let arr = match mem.ptr_at(tab.ptr, 0) {
        Some(a) => a,
        None => return None,
    };
    let cap = match mem.i16_at(tab.ptr, 8) {
        Some(c) => c,
        None => return None,
    };
    if cap <= 0 || cap > MAX_SLOTS {
        return None;
    }
    let n = cap as usize;
    let mut out: Vec<InventorySlot> = Vec::new();
    let mut i: usize = 0;
    while i < n
        invariant
            n == cap,
            0 < cap <= MAX_SLOTS,
            0 <= i <= n,
            tab_slots_spec(mem@, *tab) == slots_upto(mem@, arr as int, n as int),
            slots_upto(mem@, arr as int, i as int) == Some(out@),
        decreases n - i,
    {
        let s = match crate::looter::memory::offset(arr, i * SLOT_STRIDE) {
            Some(s) => s,
            None => {
                proof {
                    assert(crate::looter::memory::byte_at(mem@, arr + i * SLOT_STRIDE + 8 + 0) is None);
                    let t = slots_upto(mem@, arr as int, i + 1);
                    assert(t is None);
                    lemma_slots_stay_none(mem@, arr as int, i + 1, n as int);
                }
                return None;
            },
        };
        let idx = match mem.u16_at(s, 8) {
            Some(v) => v,
            None => {
                proof {
                    lemma_slots_stay_none(mem@, arr as int, i + 1, n as int);
                }
                return None;
            },
        };
        if idx != 0xFFFF {
            let count = match mem.i64_at(s, 0x10) {
                Some(c) => c,
                None => {
                    proof {
                        lemma_slots_stay_none(mem@, arr as int, i + 1, n as int);
                    }
                    return None;
                },
            };
            if count > 0 {
                out.push(InventorySlot { slot: i as u16, item_index: idx, count });
            }
        }
        i = i + 1;
    }
    Some(out)
}

proof fn lemma_slots_stay_none(m: Seq<SpecRegion>, arr: int, i: int, n: int)
    requires
        0 <= i <= n,
        slots_upto(m, arr, i) is None,
    ensures
        slots_upto(m, arr, n) is None,
    decreases n - i,
{
    if i < n {
        lemma_slots_stay_none(m, arr, i + 1, n);
    }
}

/// Tabs `0..n` of the tab array, or `None` when one of them does not read.
pub open spec fn tabs_upto(m: Seq<SpecRegion>, arr: int, n: int) -> Option<Seq<InventoryTab>>
    decreases n,
{
    if n <= 0 {
        Some(seq![])
    } else {
        match tabs_upto(m, arr, n - 1) {
            None => None,
            Some(p) => match ptr_at(m, arr + 8 * (n - 1)) {
                None => None,
                Some(tab) => match (i16_at(m, tab + 0x10), i16_at(m, tab + 0x12), i16_at(m, tab + 0x14)) {
                    (Some(id), Some(used), Some(max)) => Some(p.push(InventoryTab { ptr: tab, id, used, max })),
                    _ => None,
                },
            },
        }
    }
}

proof fn lemma_tabs_stay_none(m: Seq<SpecRegion>, arr: int, i: int, n: int)
    requires
        0 <= i <= n,
        tabs_upto(m, arr, i) is None,
    ensures
        tabs_upto(m, arr, n) is None,
    decreases n - i,
{
    if i < n {
        lemma_tabs_stay_none(m, arr, i + 1, n);
    }
}

pub open spec fn inventory_spec(m: Seq<SpecRegion>, actor: int) -> Option<Seq<InventoryTab>> {
    match ptr_at(m, actor + 0x68) {
        None => None,
        Some(sub) => match ptr_at(m, sub + INVENTORY_OFF) {
            None => None,
            Some(inv) => match u32_at(m, inv + INVENTORY_TAB_COUNT_OFF) {
                None => None,
                Some(count) => if count == 0 || count > MAX_INVENTORY_TABS {
                    None
                } else {
                    match ptr_at(m, inv + INVENTORY_TABS_OFF) {
                        None => None,
                        Some(arr) => tabs_upto(m, arr as int, count as int),
                    }
                },
            },
        },
    }
}

/// The player's inventory tabs, the way the game's own condition
/// evaluators reach them.
pub fn inventory_tabs(mem: &Memory, actor: usize) -> (r: Option<Vec<InventoryTab>>)
    ensures
        match inventory_spec(mem@, actor as int) {
            Some(s) => r matches Some(v) && v@ == s,
            None => r is None,
        },
{
    let sub = match mem.ptr_at(actor, 0x68) {
        Some(v) => v,
        None => return None,
    };
    let inv = match mem.ptr_at(sub, INVENTORY_OFF) {
        Some(v) => v,
        None => return None,
    };
    let count = match mem.u32_at(inv, INVENTORY_TAB_COUNT_OFF) {
        Some(v) => v,
        None => return None,
    };
    if count == 0 || count > MAX_INVENTORY_TABS {
        return None;
    }
    let arr = match mem.ptr_at(inv, INVENTORY_TABS_OFF) {
        Some(v) => v,
        None => return None,
    };
    let n = count as usize;
    let mut out: Vec<InventoryTab> = Vec::new();
    let mut i: usize = 0;
    while i < n
        invariant
            n == count,
            count <= MAX_INVENTORY_TABS,
            0 <= i <= n,
            inventory_spec(mem@, actor as int) == tabs_upto(mem@, arr as int, n as int),
            tabs_upto(mem@, arr as int, i as int) == Some(out@),
        decreases n - i,
    {
        let tab = match mem.ptr_at(arr, 8 * i) {
            Some(t) => t,
            None => {
                proof {
                    lemma_tabs_stay_none(mem@, arr as int, i + 1, n as int);
                }
                return None;
            },
        };
        let id = mem.i16_at(tab, 0x10);
        let used = mem.i16_at(tab, 0x12);
        let max = mem.i16_at(tab, 0x14);
        match (id, used, max) {
            (Some(id), Some(used), Some(max)) => {
                out.push(InventoryTab { ptr: tab, id, used, max });
            },
            _ => {
                proof {
                    lemma_tabs_stay_none(mem@, arr as int, i + 1, n as int);
                }
                return None;
            },
        }
        i = i + 1;
    }
    Some(out)
}

/// The first tab with id `id`.
pub open spec fn first_tab(tabs: Seq<InventoryTab>, id: i16) -> Option<InventoryTab>
    decreases tabs.len(),
{
    if tabs.len() == 0 {
        None
    } else {
        match first_tab(tabs.drop_last(), id) {
            Some(t) => Some(t),
            None => if tabs.last().id == id { Some(tabs.last()) } else { None },
        }
    }
}

/// The tab with the largest positive capacity, the last of equals.
pub open spec fn largest_tab(tabs: Seq<InventoryTab>) -> Option<InventoryTab>
    decreases tabs.len(),
{
    if tabs.len() == 0 {
        None
    } else {
        let t = tabs.last();
        match largest_tab(tabs.drop_last()) {
            Some(b) => if t.max > 0 && t.max >= b.max { Some(t) } else { Some(b) },
            None => if t.max > 0 { Some(t) } else { None },
        }
    }
}

pub open spec fn bag_tab_spec(tabs: Seq<InventoryTab>, wanted: Option<i16>) -> Option<InventoryTab> {
    match wanted {
        Some(id) => first_tab(tabs, id),
        None => largest_tab(tabs),
    }
}

/// A prefix that holds a tab with the id settles the first of them.
proof fn lemma_first_tab_prefix(tabs: Seq<InventoryTab>, id: i16, k: int)
    requires
        0 < k <= tabs.len(),
        first_tab(tabs.take(k), id) is Some,
    ensures
        first_tab(tabs, id) == first_tab(tabs.take(k), id),
    decreases tabs.len() - k,
{
    if k < tabs.len() {
        assert(tabs.take(k + 1).drop_last() =~= tabs.take(k));
        assert(first_tab(tabs.take(k + 1), id) == first_tab(tabs.take(k), id));
        lemma_first_tab_prefix(tabs, id, k + 1);
    } else {
        assert(tabs.take(k) =~= tabs);
    }
}

/// The bag: the tab with the wanted id, the first of them; or, with none
/// wanted, the tab with the largest positive capacity, the last of equals.
pub fn bag_tab(tabs: &[InventoryTab], wanted: Option<i16>) -> (r: Option<InventoryTab>)
    ensures
        r == bag_tab_spec(tabs@, wanted),
        match wanted {
            Some(id) => match r {
                Some(t) => exists|j: int| 0 <= j < tabs@.len() && tabs@[j] == t && t.id == id && forall|k: int| 0 <= k < j ==> (#[trigger] tabs@[k]).id != id,
                None => forall|k: int| 0 <= k < tabs@.len() ==> (#[trigger] tabs@[k]).id != id,
            },
            None => match r {
                Some(t) => exists|j: int| 0 <= j < tabs@.len() && tabs@[j] == t && t.max > 0
                    && (forall|k: int| 0 <= k < tabs@.len() && (#[trigger] tabs@[k]).max > 0 ==> tabs@[k].max <= t.max)
                    && (forall|k: int| j < k < tabs@.len() && (#[trigger] tabs@[k]).max > 0 ==> tabs@[k].max < t.max),
                None => forall|k: int| 0 <= k < tabs@.len() ==> (#[trigger] tabs@[k]).max <= 0,
            },
        },
{
    match wanted {
        Some(id) => {
            let mut i: usize = 0;
            while i < tabs.len()
                invariant
                    wanted == Some(id),
                    0 <= i <= tabs@.len(),
                    forall|k: int| 0 <= k < i ==> (#[trigger] tabs@[k]).id != id,
                    first_tab(tabs@.take(i as int), id) is None,
                decreases tabs@.len() - i,
            {
                proof {
                    assert(tabs@.take(i + 1).drop_last() =~= tabs@.take(i as int));
                }
                if tabs[i].id == id {
                    assert(tabs@[i as int] == tabs[i as int]);
                    proof {
                        lemma_first_tab_prefix(tabs@, id, i + 1);
                    }
                    return Some(tabs[i]);
                }
                i = i + 1;
            }
            assert(tabs@.take(tabs@.len() as int) =~= tabs@);
            None
        },
        None => {
            let mut best: Option<usize> = None;
            let mut i: usize = 0;
            while i < tabs.len()
                invariant
                    0 <= i <= tabs@.len(),
                    match best {
                        Some(b) => b < i && tabs@[b as int].max > 0
                            && (forall|k: int| 0 <= k < i && (#[trigger] tabs@[k]).max > 0 ==> tabs@[k].max <= tabs@[b as int].max)
                            && (forall|k: int| b < k < i && (#[trigger] tabs@[k]).max > 0 ==> tabs@[k].max < tabs@[b as int].max),
                        None => forall|k: int| 0 <= k < i ==> (#[trigger] tabs@[k]).max <= 0,
                    },
                    largest_tab(tabs@.take(i as int)) == match best { Some(b) => Some(tabs@[b as int]), None => None },
                decreases tabs@.len() - i,
            {
                proof {
                    assert(tabs@.take(i + 1).drop_last() =~= tabs@.take(i as int));
                    assert(tabs@.take(i + 1).last() == tabs@[i as int]);
                }
                if tabs[i].max > 0 {
                    match best {
                        Some(b) => {
                            if tabs[i].max >= tabs[b].max {
                                best = Some(i);
                            }
                        },
                        None => {
                            best = Some(i);
                        },
                    }
                }
                i = i + 1;
            }
            assert(tabs@.take(tabs@.len() as int) =~= tabs@);
            match best {
                Some(b) => Some(tabs[b]),
                None => None,
            }
        },
    }
}

// ---------------------------------------------------------------------------
// Status and dead drops
// ---------------------------------------------------------------------------

pub const STATUS_KIND_OFF: usize = 0x2C8;
pub const STATUS_FLAG_OFF: usize = 0x273;
/// The value the flag carries on a dead actor; 0 is alive.
pub const DEAD_FLAG: u8 = 1;
pub const STATUS_CATEGORY_OFF: usize = 0x5A;

#[derive(Debug, Clone, Copy, PartialEq, Eq, Structural)]
pub struct StatusBytes {
    pub kind: u8,
    pub flag: u8,
}

/// The slot offset of the first component whose class name contains
/// `ClientStatusActorComponent`.
pub open spec fn status_off_spec(comps: Seq<(usize, String)>) -> Option<usize>
    decreases comps.len(),
{
    if comps.len() == 0 {
        None
    } else if has_sub(encode_utf8(comps[0].1@), lit("ClientStatusActorComponent")) {
        Some(comps[0].0)
    } else {
        status_off_spec(comps.skip(1))
    }
}

pub fn status_off(comps: &[(usize, String)]) -> (r: Option<usize>)
    ensures
        r == status_off_spec(comps@),
{
    let mut i: usize = 0;
    proof {
        assert(comps@.skip(0) =~= comps@);
    }
    while i < comps.len()
        invariant
            0 <= i <= comps@.len(),
            status_off_spec(comps@) == status_off_spec(comps@.skip(i as int)),
        decreases comps@.len() - i,
    {
        proof {
            assert(comps@.skip(i as int)[0] == comps@[i as int]);
            assert(comps@.skip(i as int).skip(1) =~= comps@.skip(i + 1));
        }
        if contains_sub(comps[i].1.as_str().as_bytes(), "ClientStatusActorComponent".as_bytes()) {
            return Some(comps[i].0);
        }
        i = i + 1;
    }
    None
}

/// The status component at slot `off` of the actor's component block.
pub open spec fn comp_at(m: Seq<SpecRegion>, actor: int, off: int) -> Option<usize> {
    match ptr_at(m, actor + 0x68) {
        Some(sub) => ptr_at(m, sub + off),
        None => None,
    }
}

fn comp_at_exec(mem: &Memory, actor: usize, off: usize) -> (r: Option<usize>)
    ensures
        r == comp_at(mem@, actor as int, off as int),
{
    match mem.ptr_at(actor, 0x68) {
        Some(sub) => mem.ptr_at(sub, off),
        None => None,
    }
}

pub open spec fn category_at_spec(m: Seq<SpecRegion>, actor: int, off: int) -> Option<u8> {
    match comp_at(m, actor, off) {
        Some(c) => u8_at(m, c + STATUS_CATEGORY_OFF),
        None => None,
    }
}

/// The interaction category byte, once the component's slot is known.
pub fn category_at(mem: &Memory, actor: usize, off: usize) -> (r: Option<u8>)
    ensures
        r == category_at_spec(mem@, actor as int, off as int),
{
    match comp_at_exec(mem, actor, off) {
        Some(c) => mem.u8_at(c, STATUS_CATEGORY_OFF),
        None => None,
    }
}

pub open spec fn status_bytes_at_spec(m: Seq<SpecRegion>, actor: int, off: int) -> Option<StatusBytes> {
    match comp_at(m, actor, off) {
        Some(c) => match (u8_at(m, c + STATUS_KIND_OFF), u8_at(m, c + STATUS_FLAG_OFF)) {
            (Some(kind), Some(flag)) => Some(StatusBytes { kind, flag }),
            _ => None,
        },
        None => None,
    }
}

/// The status kind and the dead flag, once the component's slot is known.
pub fn status_bytes_at(mem: &Memory, actor: usize, off: usize) -> (r: Option<StatusBytes>)
    ensures
        r == status_bytes_at_spec(mem@, actor as int, off as int),
{
    match comp_at_exec(mem, actor, off) {
        Some(c) => match (mem.u8_at(c, STATUS_KIND_OFF), mem.u8_at(c, STATUS_FLAG_OFF)) {
            (Some(kind), Some(flag)) => Some(StatusBytes { kind, flag }),
            _ => None,
        },
        None => None,
    }
}

/// Shop goods, quest items and decoration are never picked up.
pub fn is_owned_or_special(st: StatusBytes) -> (r: bool)
    ensures
        r == (st.kind == 1 || st.kind == 0x0F || st.kind == 0x11),
{
    st.kind == 1 || st.kind == 0x0F || st.kind == 0x11
}

pub const DEAD_DROP_COMP_OFF: usize = 0xC8;
pub const DROPS_ROLLED_OFF: usize = 0x6C;
pub const ITEM_ROWS_OFF: usize = 0x50;
pub const DROP_ROWS_OFF: usize = 0x60;
pub const DROP_ROWS_PTR_OFF: usize = 0x58;
pub const DROP_ROW_STRIDE: usize = 0x40;
/// The loot-method mask skinning is granted under.
pub const SKIN_METHOD_MASK: u32 = 1;
pub const DROP_ROWS_MAX: u32 = 64;

/// The dead-drop component's interesting words.
#[derive(Debug, Clone, Copy, PartialEq, Eq, Structural)]
pub struct DeadDrop {
    /// Latched to 1 the first time the drops are rolled.
    pub rolled: u8,
    /// The live count of item rows.
    pub item_rows: u32,
    /// The live count of drop-set rows.
    pub set_rows: u32,
    /// How many drop-set rows skinning could take: their mask word is odd.
    pub grantable_set_rows: u32,
}

/// Whether drop-set row `i` is one skinning can take: its mask word reads
/// and has the skinning bit.
pub open spec fn row_grantable(m: Seq<SpecRegion>, rows: int, i: int) -> bool {
    match u32_at(m, rows + i * DROP_ROW_STRIDE) {
        Some(mask) => mask % 2 == 1,
        None => false,
    }
}

pub open spec fn grantable_upto(m: Seq<SpecRegion>, rows: int, n: int) -> nat
    decreases n,
{
    if n <= 0 {
        0
    } else {
        grantable_upto(m, rows, n - 1) + if row_grantable(m, rows, n - 1) { 1nat } else { 0nat }
    }
}

pub open spec fn dead_drop_spec(m: Seq<SpecRegion>, actor: int) -> Option<DeadDrop> {
    match comp_at(m, actor, DEAD_DROP_COMP_OFF as int) {
        None => None,
        Some(comp) => match (u32_at(m, comp + DROP_ROWS_OFF), u8_at(m, comp + DROPS_ROLLED_OFF), u32_at(m, comp + ITEM_ROWS_OFF)) {
            (Some(set_rows), Some(rolled), Some(item_rows)) => {
                let n = if set_rows < DROP_ROWS_MAX { set_rows as int } else { DROP_ROWS_MAX as int };
                let g = match ptr_at(m, comp + DROP_ROWS_PTR_OFF) {
                    Some(rows) => grantable_upto(m, rows as int, n),
                    None => 0,
                };
                Some(DeadDrop { rolled, item_rows, set_rows, grantable_set_rows: g as u32 })
            },
            _ => None,
        },
    }
}

proof fn lemma_grantable_bound(m: Seq<SpecRegion>, rows: int, n: int)
    requires
        0 <= n,
    ensures
        grantable_upto(m, rows, n) <= n,
    decreases n,
{
    if n > 0 {
        lemma_grantable_bound(m, rows, n - 1);
    }
}

/// The dead-drop component's state, or `None` when there is no readable
/// component.
pub fn dead_drop_state(mem: &Memory, actor: usize) -> (r: Option<DeadDrop>)
    ensures
        r == dead_drop_spec(mem@, actor as int),
{
    let comp = match comp_at_exec(mem, actor, DEAD_DROP_COMP_OFF) {
        Some(c) => c,
        None => return None,
    };
    let set_rows = match mem.u32_at(comp, DROP_ROWS_OFF) {
        Some(v) => v,
        None => return None,
    };
    let n: u32 = if set_rows < DROP_ROWS_MAX { set_rows } else { DROP_ROWS_MAX };
    let mut grantable: u32 = 0;
    match mem.ptr_at(comp, DROP_ROWS_PTR_OFF) {
        Some(rows) => {
            let mut i: u32 = 0;
            while i < n
                invariant
                    n <= DROP_ROWS_MAX,
                    0 <= i <= n,
                    grantable == grantable_upto(mem@, rows as int, i as int),
                    grantable <= i,
                decreases n - i,
            {
                let mask = match mem.u32_at(rows, i as usize * DROP_ROW_STRIDE) {
                    Some(v) => v,
                    None => 0,
                };
                if mask % 2 == 1 {
                    grantable = grantable + 1;
                }
                i = i + 1;
            }
        },
        None => {},
    }
    let rolled = match mem.u8_at(comp, DROPS_ROLLED_OFF) {
        Some(v) => v,
        None => return None,
    };
    let item_rows = match mem.u32_at(comp, ITEM_ROWS_OFF) {
        Some(v) => v,
        None => return None,
    };
    Some(DeadDrop { rolled, item_rows, set_rows, grantable_set_rows: grantable })
}

/// Whether a carcass still has anything to give: not rolled yet, or rolled
/// with an item row or a grantable drop-set row left. No readable
/// component means the game itself would do nothing with it.
pub open spec fn has_drops_spec(m: Seq<SpecRegion>, actor: int) -> bool {
    match dead_drop_spec(m, actor) {
        Some(dd) => dd.rolled == 0 || dd.item_rows > 0 || dd.grantable_set_rows > 0,
        None => false,
    }
}

pub fn carcass_has_drops(mem: &Memory, actor: usize) -> (r: bool)
    ensures
        r == has_drops_spec(mem@, actor as int),
{
    match dead_drop_state(mem, actor) {
        Some(dd) => if dd.rolled == 0 {
            true
        } else {
            dd.item_rows > 0 || dd.grantable_set_rows > 0
        },
        None => false,
    }
}

// ---------------------------------------------------------------------------
// Class names
// ---------------------------------------------------------------------------

/// `str::trim_start_matches` for a non-empty pattern.
pub open spec fn strip_prefixes(s: Seq<u8>, p: Seq<u8>) -> Seq<u8>
    decreases s.len(),
{
    if p.len() > 0 && has_prefix(s, p) {
        strip_prefixes(s.skip(p.len() as int), p)
    } else {
        s
    }
}

/// `str::trim_end_matches` for a non-empty pattern.
pub open spec fn strip_suffixes(s: Seq<u8>, p: Seq<u8>) -> Seq<u8>
    decreases s.len(),
{
    if p.len() > 0 && has_suffix(s, p) {
        strip_suffixes(s.take(s.len() - p.len()), p)
    } else {
        s
    }
}

pub open spec fn all_ascii_bytes(p: Seq<u8>) -> bool {
    forall|i: int| 0 <= i < p.len() ==> #[trigger] p[i] < 0x80
}

proof fn lemma_strip_prefixes_valid(s: Seq<u8>, p: Seq<u8>)
    requires
        vstd::utf8::valid_utf8(s),
        all_ascii_bytes(p),
    ensures
        vstd::utf8::valid_utf8(strip_prefixes(s, p)),
    decreases s.len(),
{
    if p.len() > 0 && has_prefix(s, p) {
        assert(s[p.len() - 1] == p[p.len() - 1]);
        lemma_split_at_ascii(s, p.len() - 1);
        lemma_strip_prefixes_valid(s.skip(p.len() as int), p);
    }
}

proof fn lemma_strip_suffixes_valid(s: Seq<u8>, p: Seq<u8>)
    requires
        vstd::utf8::valid_utf8(s),
        all_ascii_bytes(p),
    ensures
        vstd::utf8::valid_utf8(strip_suffixes(s, p)),
    decreases s.len(),
{
    if p.len() > 0 && has_suffix(s, p) {
        let k = s.len() - p.len();
        assert(s[k] == p[0]);
        lemma_split_at_ascii(s, k);
        lemma_strip_suffixes_valid(s.take(k), p);
    }
}

/// `(lo, hi)` of `strip_prefixes(s[lo..hi], p)` inside `s`.
fn strip_prefixes_at(s: &[u8], lo: usize, hi: usize, p: &[u8]) -> (r: usize)
    requires
        lo <= hi <= s@.len(),
    ensures
        lo <= r <= hi,
        s@.subrange(r as int, hi as int) == strip_prefixes(s@.subrange(lo as int, hi as int), p@),
{
    let mut a = lo;
    if p.len() == 0 {
        return a;
    }
    while p.len() <= hi - a && crate::text::matches_at(s, a, p)
        invariant
            lo <= a <= hi <= s@.len(),
            p@.len() > 0,
            strip_prefixes(s@.subrange(lo as int, hi as int), p@) == strip_prefixes(s@.subrange(a as int, hi as int), p@),
        decreases hi - a,
    {
        proof {
            let t = s@.subrange(a as int, hi as int);
            assert(t.take(p@.len() as int) =~= s@.subrange(a as int, a + p@.len()));
            assert(t.skip(p@.len() as int) =~= s@.subrange(a + p@.len(), hi as int));
        }
        a = a + p.len();
    }
    proof {
        let t = s@.subrange(a as int, hi as int);
        if p@.len() <= t.len() {
            assert(t.take(p@.len() as int) =~= s@.subrange(a as int, a + p@.len()));
        }
    }
    a
}

/// `(lo, hi)` of `strip_suffixes(s[lo..hi], p)` inside `s`.
fn strip_suffixes_at(s: &[u8], lo: usize, hi: usize, p: &[u8]) -> (r: usize)
    requires
        lo <= hi <= s@.len(),
    ensures
        lo <= r <= hi,
        s@.subrange(lo as int, r as int) == strip_suffixes(s@.subrange(lo as int, hi as int), p@),
{
    let mut b = hi;
    if p.len() == 0 {
        return b;
    }
    while b - lo >= p.len() && crate::text::matches_at(s, b - p.len(), p)
        invariant
            lo <= b <= hi <= s@.len(),
            p@.len() > 0,
            strip_suffixes(s@.subrange(lo as int, hi as int), p@) == strip_suffixes(s@.subrange(lo as int, b as int), p@),
        decreases b - lo,
    {
        proof {
            let t = s@.subrange(lo as int, b as int);
            assert(t.skip(t.len() - p@.len()) =~= s@.subrange(b - p@.len(), b as int));
            assert(t.take(t.len() - p@.len()) =~= s@.subrange(lo as int, b - p@.len()));
        }
        b = b - p.len();
    }
    proof {
        let t = s@.subrange(lo as int, b as int);
        if p@.len() <= t.len() {
            assert(t.skip(t.len() - p@.len()) =~= s@.subrange(b - p@.len(), b as int));
        }
    }
    b
}

pub open spec fn dot_av() -> Seq<u8> {
    seq![0x2Eu8, 0x3F, 0x41, 0x56]
}

pub open spec fn dot_au() -> Seq<u8> {
    seq![0x2Eu8, 0x3F, 0x41, 0x55]
}

/// `.?AVClientGimmickActorComponent@pa@@` -> `ClientGimmickActorComponent`:
/// the `.?AV` / `.?AU` prefixes off, then everything before the first `@`.
pub open spec fn short_name_spec(m: Seq<u8>) -> Seq<u8> {
    let s = strip_prefixes(strip_prefixes(m, dot_av()), dot_au());
    s.take(first_index(s, 0x40))
}

pub fn short_name(mangled: &str) -> (r: String)
    ensures
        encode_utf8(r@) == short_name_spec(lit(mangled)),
{
    let b = mangled.as_bytes();
    let av: [u8; 4] = [0x2E, 0x3F, 0x41, 0x56];
    let au: [u8; 4] = [0x2E, 0x3F, 0x41, 0x55];
    proof {
        assert(av@ =~= dot_av());
        assert(au@ =~= dot_au());
        assert(b@.subrange(0, b@.len() as int) =~= b@);
    }
    let a1 = strip_prefixes_at(b, 0, b.len(), av.as_slice());
    let a2 = strip_prefixes_at(b, a1, b.len(), au.as_slice());
    let at = find_byte(b, a2, b.len(), 0x40);
    let ghost s1 = strip_prefixes(b@, dot_av());
    let ghost s2 = strip_prefixes(s1, dot_au());
    proof {
        vstd::utf8::encode_utf8_valid_utf8(mangled@);
        lemma_strip_prefixes_valid(b@, dot_av());
        assert(b@.subrange(a1 as int, b@.len() as int) == s1);
        assert(s1.subrange(a2 - a1, s1.len() as int) =~= b@.subrange(a2 as int, b@.len() as int));
        assert(b@.subrange(a2 as int, b@.len() as int) == s2);
        lemma_strip_prefixes_valid(s1, dot_au());
        lemma_first_index(s2, 0x40);
        crate::text::lemma_first_index_unique(s2, 0x40, at - a2);
        if at - a2 < s2.len() {
            lemma_split_at_ascii(s2, at - a2);
        } else {
            assert(s2.take(s2.len() as int) =~= s2);
        }
        assert(s2.take(at - a2) =~= b@.subrange(a2 as int, at as int));
    }
    let mut out: Vec<u8> = Vec::new();
    push_range(&mut out, b, a2, at);
    utf8_string(out)
}

pub open spec fn client() -> Seq<u8> {
    seq![0x43u8, 0x6C, 0x69, 0x65, 0x6E, 0x74]
}

pub open spec fn component() -> Seq<u8> {
    seq![0x43u8, 0x6F, 0x6D, 0x70, 0x6F, 0x6E, 0x65, 0x6E, 0x74]
}

pub open spec fn actor_component() -> Seq<u8> {
    seq![0x41u8, 0x63, 0x74, 0x6F, 0x72] + component()
}

proof fn lemma_label_valid(s: Seq<u8>)
    requires
        vstd::utf8::valid_utf8(s),
    ensures
        vstd::utf8::valid_utf8(component_label_spec(s)),
{
    let s1 = strip_prefixes(s, client());
    lemma_strip_prefixes_valid(s, client());
    let s2 = strip_suffixes(s1, actor_component());
    lemma_strip_suffixes_valid(s1, actor_component());
    lemma_strip_suffixes_valid(s2, component());
}

/// `ClientGimmickActorComponent` -> `Gimmick`.
pub open spec fn component_label_spec(s: Seq<u8>) -> Seq<u8> {
    strip_suffixes(strip_suffixes(strip_prefixes(s, client()), actor_component()), component())
}

pub fn component_label(short: &str) -> (r: String)
    ensures
        encode_utf8(r@) == component_label_spec(lit(short)),
{
    let b = short.as_bytes();
    let cl: [u8; 6] = [0x43, 0x6C, 0x69, 0x65, 0x6E, 0x74];
    let ac: [u8; 14] = [0x41, 0x63, 0x74, 0x6F, 0x72, 0x43, 0x6F, 0x6D, 0x70, 0x6F, 0x6E, 0x65, 0x6E, 0x74];
    let co: [u8; 9] = [0x43, 0x6F, 0x6D, 0x70, 0x6F, 0x6E, 0x65, 0x6E, 0x74];
    proof {
        assert(cl@ =~= client());
        assert(ac@ =~= actor_component());
        assert(co@ =~= component());
        assert(b@.subrange(0, b@.len() as int) =~= b@);
    }
    let lo = strip_prefixes_at(b, 0, b.len(), cl.as_slice());
    let h1 = strip_suffixes_at(b, lo, b.len(), ac.as_slice());
    let h2 = strip_suffixes_at(b, lo, h1, co.as_slice());
    proof {
        vstd::utf8::encode_utf8_valid_utf8(short@);
        lemma_label_valid(b@);
    }
    let mut out: Vec<u8> = Vec::new();
    push_range(&mut out, b, lo, h2);
    utf8_string(out)
}

// ---------------------------------------------------------------------------
// Class names, by MSVC RTTI
// ---------------------------------------------------------------------------

/// Whether `p` falls inside the mapped image.
pub open spec fn in_module(md: MainModule, p: int) -> bool {
    md.base <= p < md.base + md.size
}

pub open spec fn dot_qa() -> Seq<u8> {
    seq![0x2Eu8, 0x3F, 0x41]
}

/// The MSVC RTTI class name of the object at `obj`: its vtable inside the
/// module, the complete-object locator just before the vtable inside the
/// module with signature 1, the type descriptor its RVA names inside the
/// module, and a mangled name there that starts with `.?A`. An address that
/// would leave the address space does not read.
pub open spec fn rtti_name_spec(m: Seq<SpecRegion>, md: MainModule, obj: int) -> Option<Seq<u8>> {
    match ptr_at(m, obj) {
        None => None,
        Some(vt) => if !in_module(md, vt as int) || vt < 8 {
            None
        } else {
            match ptr_at(m, vt - 8) {
                None => None,
                Some(col) => if !in_module(md, col as int) || u32_at(m, col as int) != Some(1u32) {
                    None
                } else {
                    match u32_at(m, col + 0xC) {
                        None => None,
                        Some(rva) => {
                            let name = md.base + rva + 0x10;
                            if name > usize::MAX || !in_module(md, name) {
                                None
                            } else {
                                match cstr_at(m, name, 96) {
                                    Some(s) => if has_prefix(s, dot_qa()) {
                                        Some(s)
                                    } else {
                                        None
                                    },
                                    None => None,
                                }
                            }
                        },
                    }
                }
            }
        },
    }
}

#[verifier::spinoff_prover]
#[verifier::rlimit(40)]
pub fn rtti_name(mem: &Memory, md: &MainModule, obj: usize) -> (r: Option<String>)
    ensures
        r is Some <==> rtti_name_spec(mem@, *md, obj as int) is Some,
        r matches Some(s) ==> encode_utf8(s@) == rtti_name_spec(mem@, *md, obj as int)->0,
{
    let vt = match mem.read_ptr(obj) {
        Some(v) => v,
        None => return None,
    };
    if !md.contains(vt) || vt < 8 {
        return None;
    }
    let col = match mem.read_ptr(vt - 8) {
        Some(c) => c,
        None => return None,
    };
    if !md.contains(col) {
        return None;
    }
    match mem.read_u32(col) {
        Some(sig) => {
            if sig != 1 {
                return None;
            }
        },
        None => return None,
    }
    let rva = match mem.u32_at(col, 0xC) {
        Some(r) => r,
        None => return None,
    };
    let name = match offset(md.base, rva as usize) {
        Some(a) => match offset(a, 0x10) {
            Some(n) => n,
            None => return None,
        },
        None => return None,
    };
    if !md.contains(name) {
        return None;
    }
    let s = match mem.read_cstr(name, 96) {
        Some(s) => s,
        None => return None,
    };
    let qa: [u8; 3] = [0x2E, 0x3F, 0x41];
    proof {
        assert(qa@ =~= dot_qa());
    }
    if starts_with(s.as_str().as_bytes(), qa.as_slice()) {
        Some(s)
    } else {
        None
    }
}

/// The class name of the object in slot `off` of the component block.
pub open spec fn comp_name_at(m: Seq<SpecRegion>, md: MainModule, sub: int, off: int) -> Option<Seq<u8>> {
    match ptr_at(m, sub + off) {
        Some(c) => rtti_name_spec(m, md, c as int),
        None => None,
    }
}

/// The named components among the first `k` slots.
pub open spec fn comps_upto(m: Seq<SpecRegion>, md: MainModule, sub: int, k: int) -> Seq<(usize, Seq<u8>)>
    decreases k,
{
    if k <= 0 {
        seq![]
    } else {
        let prev = comps_upto(m, md, sub, k - 1);
        match comp_name_at(m, md, sub, 8 * (k - 1)) {
            Some(n) => prev.push(((8 * (k - 1)) as usize, n)),
            None => prev,
        }
    }
}

/// The component slots the block has: offsets 0 to 0x80.
pub const COMPONENT_SLOTS: usize = 17;

/// The class names of the components in the block at `actor+0x68`, slot
/// by slot, with their offsets.
pub open spec fn component_names_spec(m: Seq<SpecRegion>, md: MainModule, actor: int) -> Seq<(usize, Seq<u8>)> {
    match ptr_at(m, actor + 0x68) {
        Some(sub) => comps_upto(m, md, sub as int, COMPONENT_SLOTS as int),
        None => seq![],
    }
}

pub open spec fn comps_view(v: Seq<(usize, String)>) -> Seq<(usize, Seq<u8>)> {
    v.map_values(|p: (usize, String)| (p.0, encode_utf8(p.1@)))
}

pub fn component_names(mem: &Memory, md: &MainModule, actor: usize) -> (r: Vec<(usize, String)>)
    ensures
        comps_view(r@) == component_names_spec(mem@, *md, actor as int),
{
    let mut out: Vec<(usize, String)> = Vec::new();
    let sub = match mem.ptr_at(actor, 0x68) {
        Some(s) => s,
        None => {
            proof {
                assert(comps_view(out@) =~= Seq::<(usize, Seq<u8>)>::empty());
            }
            return out;
        },
    };
    let mut k: usize = 0;
    while k < COMPONENT_SLOTS
        invariant
            0 <= k <= COMPONENT_SLOTS,
            comps_view(out@) == comps_upto(mem@, *md, sub as int, k as int),
        decreases COMPONENT_SLOTS - k,
    {
        let off = 8 * k;
        let named = match mem.ptr_at(sub, off) {
            Some(c) => rtti_name(mem, md, c),
            None => None,
        };
        let ghost prev = out@;
        match named {
            Some(n) => {
                out.push((off, n));
                proof {
                    assert(comps_view(out@) =~= comps_view(prev).push((off, encode_utf8(n@))));
                }
            },
            None => {},
        }
        k = k + 1;
    }
    out
}

/// The slot of the first component whose class name contains `needle`.
pub open spec fn comp_off_spec(comps: Seq<(usize, Seq<u8>)>, needle: Seq<u8>) -> Option<usize>
    decreases comps.len(),
{
    if comps.len() == 0 {
        None
    } else if has_sub(comps[0].1, needle) {
        Some(comps[0].0)
    } else {
        comp_off_spec(comps.skip(1), needle)
    }
}

pub fn comp_off(comps: &[(usize, String)], needle: &[u8]) -> (r: Option<usize>)
    ensures
        r == comp_off_spec(comps_view(comps@), needle@),
{
    let mut i: usize = 0;
    proof {
        assert(comps_view(comps@).skip(0) =~= comps_view(comps@));
    }
    while i < comps.len()
        invariant
            0 <= i <= comps@.len(),
            comp_off_spec(comps_view(comps@), needle@) == comp_off_spec(comps_view(comps@).skip(i as int), needle@),
        decreases comps@.len() - i,
    {
        proof {
            let rest = comps_view(comps@).skip(i as int);
            assert(rest[0] == (comps@[i as int].0, encode_utf8(comps@[i as int].1@)));
            assert(rest.skip(1) =~= comps_view(comps@).skip(i + 1));
        }
        if contains_sub(comps[i].1.as_str().as_bytes(), needle) {
            return Some(comps[i].0);
        }
        i = i + 1;
    }
    None
}

proof fn lemma_status_off_is_comp_off(v: Seq<(usize, String)>)
    ensures
        status_off_spec(v) == comp_off_spec(comps_view(v), lit("ClientStatusActorComponent")),
    decreases v.len(),
{
    if v.len() > 0 {
        lemma_status_off_is_comp_off(v.skip(1));
        assert(comps_view(v).skip(1) =~= comps_view(v.skip(1)));
    }
}

pub open spec fn status_comp() -> Seq<u8> {
    lit("ClientStatusActorComponent")
}

pub open spec fn gimmick_comp() -> Seq<u8> {
    lit("ClientGimmickActorComponent")
}

/// The status kind and the dead flag of the actor's status component.
pub open spec fn status_bytes_spec(m: Seq<SpecRegion>, md: MainModule, actor: int) -> Option<StatusBytes> {
    match comp_off_spec(component_names_spec(m, md, actor), status_comp()) {
        Some(off) => status_bytes_at_spec(m, actor, off as int),
        None => None,
    }
}

pub fn status_bytes(mem: &Memory, md: &MainModule, actor: usize) -> (r: Option<StatusBytes>)
    ensures
        r == status_bytes_spec(mem@, *md, actor as int),
{
    let comps = component_names(mem, md, actor);
    proof {
        lemma_status_off_is_comp_off(comps@);
    }
    match status_off(comps.as_slice()) {
        Some(off) => status_bytes_at(mem, actor, off),
        None => None,
    }
}

/// The interaction category byte the game's interaction handler switches
/// on, read off the actor's status component.
pub open spec fn interaction_category_spec(m: Seq<SpecRegion>, md: MainModule, actor: int) -> Option<u8> {
    match comp_off_spec(component_names_spec(m, md, actor), status_comp()) {
        Some(off) => category_at_spec(m, actor, off as int),
        None => None,
    }
}

pub fn interaction_category(mem: &Memory, md: &MainModule, actor: usize) -> (r: Option<u8>)
    ensures
        r == interaction_category_spec(mem@, *md, actor as int),
{
    let comps = component_names(mem, md, actor);
    match comp_off(comps.as_slice(), "ClientStatusActorComponent".as_bytes()) {
        Some(off) => category_at(mem, actor, off),
        None => None,
    }
}

/// Where the gimmick component keeps its record index.
pub const GIMMICK_RECORD_INDEX_OFF: usize = 0x48;

/// The gimmick record index the game keeps on the gimmick component;
/// 0xFFFF is none.
pub open spec fn gimmick_record_index_spec(m: Seq<SpecRegion>, md: MainModule, actor: int) -> Option<u16> {
    match comp_off_spec(component_names_spec(m, md, actor), gimmick_comp()) {
        Some(off) => match comp_at(m, actor, off as int) {
            Some(c) => match u16_at(m, c + GIMMICK_RECORD_INDEX_OFF) {
                Some(i) => if i != 0xFFFF {
                    Some(i)
                } else {
                    None
                },
                None => None,
            },
            None => None,
        },
        None => None,
    }
}

pub fn gimmick_record_index(mem: &Memory, md: &MainModule, actor: usize) -> (r: Option<u16>)
    ensures
        r == gimmick_record_index_spec(mem@, *md, actor as int),
{
    let comps = component_names(mem, md, actor);
    let off = match comp_off(comps.as_slice(), "ClientGimmickActorComponent".as_bytes()) {
        Some(o) => o,
        None => return None,
    };
    let c = match comp_at_exec(mem, actor, off) {
        Some(c) => c,
        None => return None,
    };
    match mem.u16_at(c, GIMMICK_RECORD_INDEX_OFF) {
        Some(i) => if i != 0xFFFF {
            Some(i)
        } else {
            None
        },
        None => None,
    }
}

/// What the gimmick component says of the node.
#[derive(Debug, Clone, Copy, PartialEq, Eq, Structural)]
pub struct GimmickInfo {
    pub comp_off: usize,
    /// `comp+0xC0 -> u32`; 0xFFFFFFFF means "no instance".
    pub instance: Option<u32>,
    /// `comp+0xE0 -> u16`, the record id.
    pub record_id: Option<u16>,
    /// `comp+0xE0 -> byte +5`.
    pub kind: Option<u8>,
}

pub open spec fn gimmick_info_spec(m: Seq<SpecRegion>, md: MainModule, actor: int) -> Option<GimmickInfo> {
    match comp_off_spec(component_names_spec(m, md, actor), gimmick_comp()) {
        Some(off) => match comp_at(m, actor, off as int) {
            Some(c) => Some(
                GimmickInfo {
                    comp_off: off,
                    instance: match ptr_at(m, c + 0xC0) {
                        Some(p) => u32_at(m, p as int),
                        None => None,
                    },
                    record_id: match ptr_at(m, c + 0xE0) {
                        Some(p) => u16_at(m, p as int),
                        None => None,
                    },
                    kind: match ptr_at(m, c + 0xE0) {
                        Some(p) => u8_at(m, p + 5),
                        None => None,
                    },
                },
            ),
            None => None,
        },
        None => None,
    }
}

pub fn gimmick_info(mem: &Memory, md: &MainModule, actor: usize) -> (r: Option<GimmickInfo>)
    ensures
        r == gimmick_info_spec(mem@, *md, actor as int),
{
    let comps = component_names(mem, md, actor);
    let off = match comp_off(comps.as_slice(), "ClientGimmickActorComponent".as_bytes()) {
        Some(o) => o,
        None => return None,
    };
    let c = match comp_at_exec(mem, actor, off) {
        Some(c) => c,
        None => return None,
    };
    let instance = match mem.ptr_at(c, 0xC0) {
        Some(p) => mem.read_u32(p),
        None => None,
    };
    let (record_id, kind) = match mem.ptr_at(c, 0xE0) {
        Some(p) => (mem.read_u16(p), mem.u8_at(p, 5)),
        None => (None, None),
    };
    Some(GimmickInfo { comp_off: off, instance, record_id, kind })
}

/// Where the node's resource path hangs off its catch and attack
/// components.
pub const CATCH_PATH_OFF: usize = 0xE0;
pub const ATTACK_PATH_OFF: usize = 0x70;

/// The path behind the component named `needle`, at `+off`, when it reads
/// and starts with `/`.
pub open spec fn path_via(
    m: Seq<SpecRegion>,
    sub: int,
    comps: Seq<(usize, Seq<u8>)>,
    needle: Seq<u8>,
    off: int,
) -> Option<Seq<u8>> {
    match comp_off_spec(comps, needle) {
        Some(coff) => match ptr_at(m, sub + coff) {
            Some(c) => match ptr_at(m, c + off) {
                Some(p) => match cstr_at(m, p as int, 256) {
                    Some(s) => if s.len() > 0 && s[0] == 0x2F {
                        Some(s)
                    } else {
                        None
                    },
                    None => None,
                },
                None => None,
            },
            None => None,
        },
        None => None,
    }
}

/// The node's resource path: through its catch component first, then its
/// attack component.
pub open spec fn node_path_spec(m: Seq<SpecRegion>, md: MainModule, actor: int) -> Option<Seq<u8>> {
    match ptr_at(m, actor + 0x68) {
        Some(sub) => {
            let comps = component_names_spec(m, md, actor);
            match path_via(m, sub as int, comps, lit("ClientCatchActorComponent"), CATCH_PATH_OFF as int) {
                Some(s) => Some(s),
                None => path_via(m, sub as int, comps, lit("ClientAttackActorComponent"), ATTACK_PATH_OFF as int),
            }
        },
        None => None,
    }
}

fn path_via_exec(
    mem: &Memory,
    sub: usize,
    comps: &[(usize, String)],
    needle: &[u8],
    off: usize,
) -> (r: Option<String>)
    ensures
        r is Some <==> path_via(mem@, sub as int, comps_view(comps@), needle@, off as int) is Some,
        r matches Some(s) ==> encode_utf8(s@) == path_via(mem@, sub as int, comps_view(comps@), needle@, off as int)->0,
{
    let coff = match comp_off(comps, needle) {
        Some(o) => o,
        None => return None,
    };
    let c = match mem.ptr_at(sub, coff) {
        Some(c) => c,
        None => return None,
    };
    let p = match mem.ptr_at(c, off) {
        Some(p) => p,
        None => return None,
    };
    let s = match mem.read_cstr(p, 256) {
        Some(s) => s,
        None => return None,
    };
    let b = s.as_str().as_bytes();
    if b.len() > 0 && b[0] == 0x2F {
        Some(s)
    } else {
        None
    }
}

pub fn node_path(mem: &Memory, md: &MainModule, actor: usize) -> (r: Option<String>)
    ensures
        r is Some <==> node_path_spec(mem@, *md, actor as int) is Some,
        r matches Some(s) ==> encode_utf8(s@) == node_path_spec(mem@, *md, actor as int)->0,
{
    let sub = match mem.ptr_at(actor, 0x68) {
        Some(s) => s,
        None => return None,
    };
    let comps = component_names(mem, md, actor);
    match path_via_exec(mem, sub, comps.as_slice(), "ClientCatchActorComponent".as_bytes(), CATCH_PATH_OFF) {
        Some(s) => Some(s),
        None => path_via_exec(mem, sub, comps.as_slice(), "ClientAttackActorComponent".as_bytes(), ATTACK_PATH_OFF),
    }
}

/// Where the gimmick component points at the node's name.
pub const GIMMICK_NAME_OFF: usize = 0x68;

/// A C string of at least four characters, within 64 bytes.
pub open spec fn name_at(m: Seq<SpecRegion>, p: int) -> Option<Seq<u8>> {
    match cstr_at(m, p, 64) {
        Some(s) => if s.len() >= 4 {
            Some(s)
        } else {
            None
        },
        None => None,
    }
}

/// The node's name: `gimmick component + 0x68 -> ptr`, then one pointer
/// further when a name is there, else the name right at that pointer.
pub open spec fn node_name_spec(m: Seq<SpecRegion>, md: MainModule, actor: int) -> Option<Seq<u8>> {
    match comp_off_spec(component_names_spec(m, md, actor), gimmick_comp()) {
        Some(off) => match comp_at(m, actor, off as int) {
            Some(c) => match ptr_at(m, c + GIMMICK_NAME_OFF) {
                Some(p1) => match ptr_at(m, p1 as int) {
                    Some(p2) if name_at(m, p2 as int) is Some => name_at(m, p2 as int),
                    _ => name_at(m, p1 as int),
                },
                None => None,
            },
            None => None,
        },
        None => None,
    }
}

fn name_at_exec(mem: &Memory, p: usize) -> (r: Option<String>)
    ensures
        r is Some <==> name_at(mem@, p as int) is Some,
        r matches Some(s) ==> encode_utf8(s@) == name_at(mem@, p as int)->0,
{
    match mem.read_cstr(p, 64) {
        Some(s) => {
            if s.as_str().as_bytes().len() >= 4 {
                Some(s)
            } else {
                None
            }
        },
        None => None,
    }
}

pub fn node_name(mem: &Memory, md: &MainModule, actor: usize) -> (r: Option<String>)
    ensures
        r is Some <==> node_name_spec(mem@, *md, actor as int) is Some,
        r matches Some(s) ==> encode_utf8(s@) == node_name_spec(mem@, *md, actor as int)->0,
{
    let comps = component_names(mem, md, actor);
    let off = match comp_off(comps.as_slice(), "ClientGimmickActorComponent".as_bytes()) {
        Some(o) => o,
        None => return None,
    };
    let c = match comp_at_exec(mem, actor, off) {
        Some(c) => c,
        None => return None,
    };
    let p1 = match mem.ptr_at(c, GIMMICK_NAME_OFF) {
        Some(p) => p,
        None => return None,
    };
    if let Some(p2) = mem.read_ptr(p1) {
        if let Some(s) = name_at_exec(mem, p2) {
            return Some(s);
        }
    }
    name_at_exec(mem, p1)
}

pub open spec fn opt_bytes(o: Option<String>) -> Option<Seq<u8>> {
    match o {
        Some(s) => Some(encode_utf8(s@)),
        None => None,
    }
}

pub open spec fn opt_short(o: Option<Seq<u8>>) -> Option<Seq<u8>> {
    match o {
        Some(n) => Some(short_name_spec(n)),
        None => None,
    }
}

fn short_class(mem: &Memory, md: &MainModule, obj: usize) -> (r: Option<String>)
    ensures
        opt_bytes(r) == opt_short(rtti_name_spec(mem@, *md, obj as int)),
{
    match rtti_name(mem, md, obj) {
        Some(n) => Some(short_name(n.as_str())),
        None => None,
    }
}

/// The pointer fields of an object, every eight bytes of its first `size`,
/// that point at an object with a class name: (offset, target, short class).
pub open spec fn fields_upto(m: Seq<SpecRegion>, md: MainModule, obj: int, k: int) -> Seq<(usize, usize, Seq<u8>)>
    decreases k,
{
    if k <= 0 {
        seq![]
    } else {
        let prev = fields_upto(m, md, obj, k - 1);
        let off = 8 * (k - 1);
        match ptr_at(m, obj + off) {
            Some(p) => match rtti_name_spec(m, md, p as int) {
                Some(n) => prev.push((off as usize, p, short_name_spec(n))),
                None => prev,
            },
            None => prev,
        }
    }
}

/// How many eight-byte steps start below `size`.
pub open spec fn steps(size: int) -> int {
    (size + 7) / 8
}

pub open spec fn fields_view(v: Seq<(usize, usize, String)>) -> Seq<(usize, usize, Seq<u8>)> {
    v.map_values(|f: (usize, usize, String)| (f.0, f.1, encode_utf8(f.2@)))
}

pub fn object_fields(mem: &Memory, md: &MainModule, obj: usize, size: usize) -> (r: Vec<(usize, usize, String)>)
    ensures
        fields_view(r@) == fields_upto(mem@, *md, obj as int, steps(size as int)),
{
    let n = size / 8 + if size % 8 != 0 {
        1
    } else {
        0
    };
    proof {
        assert(n == steps(size as int)) by (nonlinear_arith)
            requires
                n == size / 8 + if size % 8 != 0 {
                    1int
                } else {
                    0int
                },
        ;
    }
    let mut out: Vec<(usize, usize, String)> = Vec::new();
    let mut i: usize = 0;
    while i < n
        invariant
            0 <= i <= n,
            n == steps(size as int),
            fields_view(out@) == fields_upto(mem@, *md, obj as int, i as int),
        decreases n - i,
    {
        proof {
            assert(8 * i < size) by (nonlinear_arith)
                requires
                    i < n,
                    n == (size + 7) / 8,
            ;
        }
        let off = 8 * i;
        let ghost prev = out@;
        if let Some(p) = mem.ptr_at(obj, off) {
            if let Some(c) = short_class(mem, md, p) {
                out.push((off, p, c));
                proof {
                    assert(fields_view(out@) =~= fields_view(prev).push((off, p, encode_utf8(c@))));
                }
            }
        }
        i = i + 1;
    }
    out
}

/// A raw word of an actor list, with what it looks like.
pub struct RawItem {
    pub value: u64,
    pub readable: bool,
    pub eid: Option<u32>,
    pub class: Option<String>,
    pub sub28_class: Option<String>,
}

pub struct RawItemView {
    pub value: u64,
    pub readable: bool,
    pub eid: Option<u32>,
    pub class: Option<Seq<u8>>,
    pub sub28_class: Option<Seq<u8>>,
}

impl View for RawItem {
    type V = RawItemView;

    open spec fn view(&self) -> RawItemView {
        RawItemView {
            value: self.value,
            readable: self.readable,
            eid: self.eid,
            class: opt_bytes(self.class),
            sub28_class: opt_bytes(self.sub28_class),
        }
    }
}

/// What a raw word looks like: a readable pointer's entity id, class, and
/// the class of what its `+0x28` points at.
pub open spec fn raw_item_spec(m: Seq<SpecRegion>, md: MainModule, value: u64) -> RawItemView {
    let p = value as usize;
    let rd = p != 0 && readable(m, p as int, 0x100);
    RawItemView {
        value,
        readable: rd,
        eid: if rd {
            eid_of(m, p as int)
        } else {
            None
        },
        class: if rd {
            opt_short(rtti_name_spec(m, md, p as int))
        } else {
            None
        },
        sub28_class: if rd {
            match ptr_at(m, p + 0x28) {
                Some(s) => opt_short(rtti_name_spec(m, md, s as int)),
                None => None,
            }
        } else {
            None
        },
    }
}

pub open spec fn raw_items_upto(m: Seq<SpecRegion>, md: MainModule, items: int, k: int) -> Seq<RawItemView>
    decreases k,
{
    if k <= 0 {
        seq![]
    } else {
        let prev = raw_items_upto(m, md, items, k - 1);
        match u64_at(m, items + 8 * (k - 1)) {
            Some(v) => prev.push(raw_item_spec(m, md, v)),
            None => prev,
        }
    }
}

pub open spec fn raw_items_view(v: Seq<RawItem>) -> Seq<RawItemView> {
    v.map_values(|r: RawItem| r@)
}

/// The first words of a list's item array, at most `n` and at most its
/// count, with what each looks like; a word that does not read is left out.
pub fn raw_items(mem: &Memory, md: &MainModule, list: &ActorList, n: usize) -> (r: Vec<RawItem>)
    ensures
        raw_items_view(r@) == raw_items_upto(
            mem@,
            *md,
            list.items as int,
            if n < list.count {
                n as int
            } else {
                list.count as int
            },
        ),
{
    let k: usize = if n < list.count as usize {
        n
    } else {
        list.count as usize
    };
    let mut out: Vec<RawItem> = Vec::new();
    let mut i: usize = 0;
    while i < k
        invariant
            0 <= i <= k,
            k == (if n < list.count {
                n as int
            } else {
                list.count as int
            }),
            raw_items_view(out@) == raw_items_upto(mem@, *md, list.items as int, i as int),
        decreases k - i,
    {
        let ghost prev = out@;
        if let Some(value) = mem.word(list.items, i) {
            let p = value as usize;
            let rd = p != 0 && mem.readable(p, 0x100);
            let item = if rd {
                let eid = actor_eid(mem, p);
                let class = short_class(mem, md, p);
                let sub28_class = match mem.ptr_at(p, 0x28) {
                    Some(s) => short_class(mem, md, s),
                    None => None,
                };
                RawItem { value, readable: rd, eid, class, sub28_class }
            } else {
                RawItem { value, readable: rd, eid: None, class: None, sub28_class: None }
            };
            out.push(item);
            proof {
                assert(raw_items_view(out@) =~= raw_items_view(prev).push(raw_item_spec(mem@, *md, value)));
            }
        }
        i = i + 1;
    }
    out
}

// ---------------------------------------------------------------------------
// The interaction object, in hex
// ---------------------------------------------------------------------------

/// One word as the survey prints it: its hex, or `?` when it does not read.
pub open spec fn word_text(w: Option<u64>) -> Seq<u8> {
    match w {
        Some(v) => hex_upper(v as nat),
        None => seq![0x3Fu8],
    }
}

/// Words `0..k` at `p`, comma-separated.
pub open spec fn words_upto(m: Seq<SpecRegion>, p: int, k: int) -> Seq<u8>
    decreases k,
{
    if k <= 0 {
        seq![]
    } else if k == 1 {
        word_text(u64_at(m, p))
    } else {
        words_upto(m, p, k - 1) + seq![0x2Cu8] + word_text(u64_at(m, p + 8 * (k - 1)))
    }
}

/// Words 0..5 of the interaction object behind the gimmick component's
/// `+0xE0`, in hex; `-` when there is no such object.
pub open spec fn interaction_words_spec(m: Seq<SpecRegion>, md: MainModule, actor: int) -> Seq<u8> {
    match ptr_at(m, actor + 0x68) {
        None => seq![0x2Du8],
        Some(sub) => match comp_off_spec(component_names_spec(m, md, actor), gimmick_comp()) {
            None => seq![0x2Du8],
            Some(off) => match ptr_at(m, sub + off) {
                None => seq![0x2Du8],
                Some(c) => match ptr_at(m, c + 0xE0) {
                    None => seq![0x2Du8],
                    Some(p) => words_upto(m, p as int, 6),
                },
            },
        },
    }
}

proof fn lemma_words_ascii(m: Seq<SpecRegion>, p: int, k: int)
    ensures
        crate::strings::all_ascii(words_upto(m, p, k)),
    decreases k,
{
    if k > 1 {
        lemma_words_ascii(m, p, k - 1);
    }
    if k >= 1 {
        match u64_at(m, p + 8 * (k - 1)) {
            Some(v) => lemma_hex_upper_ascii(v as nat),
            None => {},
        }
        match u64_at(m, p) {
            Some(v) => lemma_hex_upper_ascii(v as nat),
            None => {},
        }
    }
}

pub fn interaction_words(mem: &Memory, md: &MainModule, actor: usize) -> (r: String)
    ensures
        encode_utf8(r@) == interaction_words_spec(mem@, *md, actor as int),
{
    let mut out: Vec<u8> = Vec::new();
    let p = match mem.ptr_at(actor, 0x68) {
        Some(sub) => {
            let comps = component_names(mem, md, actor);
            match comp_off(comps.as_slice(), "ClientGimmickActorComponent".as_bytes()) {
                Some(off) => match mem.ptr_at(sub, off) {
                    Some(c) => mem.ptr_at(c, 0xE0),
                    None => None,
                },
                None => None,
            }
        },
        None => None,
    };
    match p {
        None => {
            out.push(0x2D);
            proof {
                assert(out@ =~= seq![0x2Du8]);
            }
        },
        Some(p) => {
            let mut i: usize = 0;
            while i < 6
                invariant
                    0 <= i <= 6,
                    out@ == words_upto(mem@, p as int, i as int),
                decreases 6 - i,
            {
                if i > 0 {
                    out.push(0x2C);
                }
                let ghost before = out@;
                match mem.word(p, i) {
                    Some(v) => push_hex_upper(&mut out, v),
                    None => out.push(0x3F),
                }
                proof {
                    if i == 0 {
                        assert(out@ =~= word_text(u64_at(mem@, p as int)));
                    } else {
                        assert(out@ =~= words_upto(mem@, p as int, i as int) + seq![0x2Cu8] + word_text(
                            u64_at(mem@, p + 8 * i),
                        ));
                    }
                }
                i = i + 1;
            }
        },
    }
    proof {
        lemma_words_ascii(mem@, p->0 as int, 6);
        crate::strings::lemma_ascii_encode(out@);
    }
    crate::strings::ascii_string(out)
}

// ---------------------------------------------------------------------------
// Globals in the module's data sections
// ---------------------------------------------------------------------------

/// A data section of the module, as its header gives it.
#[derive(Debug, Clone, Copy, PartialEq, Eq, Structural)]
pub struct DataSection {
    pub virtual_address: u32,
    pub virtual_size: u32,
    pub raw_size: u32,
}

/// Where a section's scan starts (its address rounded down to eight) and
/// ends (its larger size past its address, clamped to the image).
pub open spec fn sec_start(s: DataSection) -> int {
    s.virtual_address - s.virtual_address % 8
}

pub open spec fn sec_end(s: DataSection, size: int) -> int {
    let e = s.virtual_address + if s.virtual_size >= s.raw_size {
        s.virtual_size
    } else {
        s.raw_size
    };
    if e < size {
        e
    } else {
        size
    }
}

/// A pointer a global may hold to a heap object: above the first 64 KiB,
/// below the user-space top, and outside the module.
pub open spec fn heap_ptr(md: MainModule, p: int) -> bool {
    0x10000 <= p < 0x7FFF_FFFF_FFFF && !in_module(md, p)
}

/// The first global in `[off, end)` of the image that points at an object
/// whose first word is one of `vtables`: (slot address, object). A word of
/// the image that does not read ends the section.
pub open spec fn scan_vtables(m: Seq<SpecRegion>, md: MainModule, vtables: Seq<u64>, off: int, end: int) -> Option<(usize, usize)>
    decreases end - off,
{
    if off + 8 > end {
        None
    } else {
        match u64_at(m, md.base + off) {
            None => None,
            Some(w) => {
                let p = w as usize;
                if heap_ptr(md, p as int) && (match u64_at(m, p as int) {
                    Some(vt) => vtables.contains(vt),
                    None => false,
                }) {
                    Some(((md.base + off) as usize, p))
                } else {
                    scan_vtables(m, md, vtables, off + 8, end)
                }
            },
        }
    }
}

pub open spec fn find_manager_upto(m: Seq<SpecRegion>, md: MainModule, secs: Seq<DataSection>, vtables: Seq<u64>, k: int) -> Option<(usize, usize)>
    decreases k,
{
    if k <= 0 {
        None
    } else {
        match find_manager_upto(m, md, secs, vtables, k - 1) {
            Some(r) => Some(r),
            None => scan_vtables(m, md, vtables, sec_start(secs[k - 1]), sec_end(secs[k - 1], md.size as int)),
        }
    }
}

proof fn lemma_find_manager_keeps(m: Seq<SpecRegion>, md: MainModule, secs: Seq<DataSection>, vtables: Seq<u64>, k: int, n: int)
    requires
        k <= n,
        find_manager_upto(m, md, secs, vtables, k) is Some,
    ensures
        find_manager_upto(m, md, secs, vtables, n) == find_manager_upto(m, md, secs, vtables, k),
    decreases n - k,
{
    if k < n {
        lemma_find_manager_keeps(m, md, secs, vtables, k, n - 1);
    }
}

fn u64_in(v: &[u64], x: u64) -> (r: bool)
    ensures
        r == v@.contains(x),
{
    let mut i: usize = 0;
    while i < v.len()
        invariant
            0 <= i <= v.len(),
            forall|j: int| 0 <= j < i ==> v@[j] != x,
        decreases v.len() - i,
    {
        if v[i] == x {
            return true;
        }
        i = i + 1;
    }
    false
}

fn sec_bounds(s: &DataSection, size: usize) -> (r: (usize, usize))
    ensures
        r.0 == sec_start(*s),
        r.1 == sec_end(*s, size as int),
{
    let va = s.virtual_address as u64;
    let span = if s.virtual_size >= s.raw_size {
        s.virtual_size
    } else {
        s.raw_size
    } as u64;
    let e = va + span;
    let end: usize = if e < size as u64 {
        e as usize
    } else {
        size
    };
    ((va - va % 8) as usize, end)
}

fn scan_vtables_exec(mem: &Memory, md: &MainModule, vtables: &[u64], start: usize, end: usize) -> (r: Option<(usize, usize)>)
    ensures
        r == scan_vtables(mem@, *md, vtables@, start as int, end as int),
{
    let mut off = start;
    while off <= end && end - off >= 8
        invariant
            scan_vtables(mem@, *md, vtables@, start as int, end as int) == scan_vtables(mem@, *md, vtables@, off as int, end as int),
        decreases end - off,
    {
        let w = match mem.u64_at(md.base, off) {
            Some(w) => w,
            None => return None,
        };
        let p = w as usize;
        if 0x10000 <= p && (p as u64) < 0x7FFF_FFFF_FFFFu64 && !md.contains(p) {
            if let Some(vt) = mem.read_u64(p) {
                if u64_in(vtables, vt) {
                    return Some((md.base + off, p));
                }
            }
        }
        off = off + 8;
    }
    None
}

/// The actor manager through the global that points at it: the first
/// global of the data sections whose object starts with one of the
/// manager's vtables. (slot address, object).
pub fn find_manager(mem: &Memory, md: &MainModule, sections: &[DataSection], vtables: &[u64]) -> (r: Option<(usize, usize)>)
    ensures
        r == find_manager_upto(mem@, *md, sections@, vtables@, sections@.len() as int),
{
    let mut k: usize = 0;
    while k < sections.len()
        invariant
            0 <= k <= sections@.len(),
            find_manager_upto(mem@, *md, sections@, vtables@, k as int) is None,
        decreases sections@.len() - k,
    {
        let (start, end) = sec_bounds(&sections[k], md.size);
        if let Some(hit) = scan_vtables_exec(mem, md, vtables, start, end) {
            proof {
                lemma_find_manager_keeps(mem@, *md, sections@, vtables@, k + 1, sections@.len() as int);
            }
            return Some(hit);
        }
        k = k + 1;
    }
    None
}

/// Whether a class is already among the census entries.
pub open spec fn has_class(acc: Seq<(usize, usize, Seq<u8>)>, c: Seq<u8>) -> bool {
    exists|i: int| 0 <= i < acc.len() && (#[trigger] acc[i]).2 == c
}

/// The census entries after `[off, end)` of the image: each global there
/// that points at a heap object with a class name adds (offset in the image,
/// object, short class) unless that class is already in. A word of the
/// image that does not read ends the section.
pub open spec fn census_scan(
    m: Seq<SpecRegion>,
    md: MainModule,
    acc: Seq<(usize, usize, Seq<u8>)>,
    off: int,
    end: int,
) -> Seq<(usize, usize, Seq<u8>)>
    decreases end - off,
{
    if off + 8 > end {
        acc
    } else {
        match u64_at(m, md.base + off) {
            None => acc,
            Some(w) => {
                let p = w as usize;
                let next = if heap_ptr(md, p as int) {
                    match rtti_name_spec(m, md, p as int) {
                        Some(n) => {
                            let c = short_name_spec(n);
                            if has_class(acc, c) {
                                acc
                            } else {
                                acc.push((off as usize, p, c))
                            }
                        },
                        None => acc,
                    }
                } else {
                    acc
                };
                census_scan(m, md, next, off + 8, end)
            },
        }
    }
}

pub open spec fn census_upto(m: Seq<SpecRegion>, md: MainModule, secs: Seq<DataSection>, k: int) -> Seq<(usize, usize, Seq<u8>)>
    decreases k,
{
    if k <= 0 {
        seq![]
    } else {
        let acc = census_upto(m, md, secs, k - 1);
        census_scan(m, md, acc, sec_start(secs[k - 1]), sec_end(secs[k - 1], md.size as int))
    }
}

fn has_class_exec(acc: &Vec<(usize, usize, String)>, c: &String) -> (r: bool)
    ensures
        r == has_class(fields_view(acc@), encode_utf8(c@)),
{
    let mut i: usize = 0;
    while i < acc.len()
        invariant
            0 <= i <= acc@.len(),
            forall|j: int| 0 <= j < i ==> (#[trigger] fields_view(acc@)[j]).2 != encode_utf8(c@),
        decreases acc@.len() - i,
    {
        if crate::strings::str_eq(acc[i].2.as_str(), c.as_str()) {
            proof {
                assert(fields_view(acc@)[i as int].2 == encode_utf8(c@));
            }
            return true;
        }
        proof {
            crate::strings::lemma_bytes_eq_iff(acc@[i as int].2@, c@);
        }
        i = i + 1;
    }
    false
}

fn census_scan_exec(mem: &Memory, md: &MainModule, acc: &mut Vec<(usize, usize, String)>, start: usize, end: usize)
    ensures
        fields_view(final(acc)@) == census_scan(mem@, *md, fields_view(old(acc)@), start as int, end as int),
{
    let mut off = start;
    while off <= end && end - off >= 8
        invariant
            census_scan(mem@, *md, fields_view(old(acc)@), start as int, end as int) == census_scan(
                mem@,
                *md,
                fields_view(acc@),
                off as int,
                end as int,
            ),
        decreases end - off,
    {
        let w = match mem.u64_at(md.base, off) {
            Some(w) => w,
            None => return,
        };
        let p = w as usize;
        if 0x10000 <= p && (p as u64) < 0x7FFF_FFFF_FFFFu64 && !md.contains(p) {
            if let Some(n) = rtti_name(mem, md, p) {
                let c = short_name(n.as_str());
                if !has_class_exec(acc, &c) {
                    let ghost before = acc@;
                    acc.push((off, p, c));
                    proof {
                        assert(fields_view(acc@) =~= fields_view(before).push((off, p, encode_utf8(c@))));
                    }
                }
            }
        }
        off = off + 8;
    }
}

/// Every data-section global that points at a heap object with a class
/// name: (slot offset in the image, object, short class), one per class,
/// the first slot kept.
pub fn global_object_census(mem: &Memory, md: &MainModule, sections: &[DataSection]) -> (r: Vec<(usize, usize, String)>)
    ensures
        fields_view(r@) == census_upto(mem@, *md, sections@, sections@.len() as int),
{
    let mut out: Vec<(usize, usize, String)> = Vec::new();
    proof {
        assert(fields_view(out@) =~= Seq::<(usize, usize, Seq<u8>)>::empty());
    }
    let mut k: usize = 0;
    while k < sections.len()
        invariant
            0 <= k <= sections@.len(),
            fields_view(out@) == census_upto(mem@, *md, sections@, k as int),
        decreases sections@.len() - k,
    {
        let (start, end) = sec_bounds(&sections[k], md.size);
        census_scan_exec(mem, md, &mut out, start, end);
        k = k + 1;
    }
    out
}

} // verus!
