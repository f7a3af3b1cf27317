//! Automatic gathering as state: the pacing of sends, the nodes sent for and
//! not yet gone, the count of sends the game refused in a row, and the bag
//! check that decides whether a send may go at all.
//!
//! The scene (which actors stand where, and how far) is read by the caller,
//! which hands this state the plain results: the entity ids still standing,
//! the inventory tabs, the chosen target. Times are milliseconds on a
//! monotonic clock the caller reads.

use vstd::prelude::*;

use crate::looter::actors::{bag_tab, bag_tab_spec, tab_slots, tab_slots_spec, InventorySlot, InventoryTab};
use crate::looter::events::{item_slot, learned_yield, lemma_item_slot, lemma_item_slot_first, Events, PickupRequest};
use crate::looter::memory::{MainModule, Memory, SpecRegion};
use crate::looter::payload::PickupMode;
use crate::looter::tables::{
    gimmick_drops_spec, gimmick_record, gimmick_record_drops, item_index_by_key, item_index_spec, record_spec,
    DropLimits, DropOutput, TableSlots,
};

verus! {

/// A parked request older than this means the sweep hook is not firing.
pub const STALE_REQUEST_MS: u64 = 2000;
/// How often auto mode says "nothing in range" while idle.
pub const IDLE_LOG_EVERY_MS: u64 = 30_000;
/// While nodes are outstanding, check on them this often.
pub const REVIEW_EVERY_MS: u64 = 100;
/// This many expired sends in a row means the game is refusing pickups;
/// auto mode stops rather than loop.
pub const MAX_CONSECUTIVE_FAILURES: u32 = 3;

/// A node sent for and not yet seen to go.
#[derive(Debug)]
pub struct Done {
    pub eid: u32,
    pub name: String,
    pub sent_ms: u64,
}

pub struct DoneView {
    pub eid: u32,
    pub name: Seq<char>,
    pub sent_ms: u64,
}

impl View for Done {
    type V = DoneView;

    open spec fn view(&self) -> DoneView {
        DoneView { eid: self.eid, name: self.name@, sent_ms: self.sent_ms }
    }
}

/// The settings the gatherer starts from.
#[derive(Debug, Clone, Copy, PartialEq, Eq, Structural)]
pub struct GatherSettings {
    pub auto: bool,
    pub unarmed: bool,
    pub items: bool,
    pub gear: bool,
    pub bag_tab: Option<i16>,
    pub stack_limit: u32,
    pub interval_ms: u64,
    pub cooldown_ms: u64,
}

/// Why a send to a full bag was refused.
#[derive(Debug, Clone, Copy, PartialEq, Eq, Structural)]
pub enum Refusal {
    /// Ground items need a free slot: their contents are per instance.
    GroundItem,
    /// The record's outputs do not read and nothing was learned for it.
    YieldUnknown,
    /// The bag's slots do not read.
    SlotsUnreadable,
    /// The item is not in the item table.
    NotInItemTable { item: u32 },
    /// The bag holds no stack of the item.
    NoStack { item: u32 },
    /// The item is in the bag as a single, not proven stackable.
    Single { item: u32 },
    /// Adding the yield to the stack would pass the stack limit.
    PastLimit { item: u32, stack: i64, add: u32, limit: u32 },
}

/// A yield that stacks onto a stack already in the bag.
#[derive(Debug, Clone, Copy, PartialEq, Eq, Structural)]
pub struct StackNote {
    pub item: u32,
    pub before: i64,
    pub after: i64,
}

/// What the bag check has to say, when it says anything.
#[derive(Debug)]
pub enum BagNote {
    /// The inventory does not read; the send goes without a bag check.
    InventoryUnreadable,
    /// No tab is the bag; the send goes without a bag check.
    NoBagTab,
    /// The bag, reported full before, has room again.
    RoomAgain { tab: InventoryTab },
    /// The bag is full but every yield stacks.
    Stacks { tab: InventoryTab, notes: Vec<StackNote> },
    /// The bag is full and the pickup is refused.
    Refused { tab: InventoryTab, reason: Refusal },
}

pub enum BagNoteView {
    InventoryUnreadable,
    NoBagTab,
    RoomAgain { tab: InventoryTab },
    Stacks { tab: InventoryTab, notes: Seq<StackNote> },
    Refused { tab: InventoryTab, reason: Refusal },
}

pub open spec fn note_view(n: Option<BagNote>) -> Option<BagNoteView> {
    match n {
        None => None,
        Some(BagNote::InventoryUnreadable) => Some(BagNoteView::InventoryUnreadable),
        Some(BagNote::NoBagTab) => Some(BagNoteView::NoBagTab),
        Some(BagNote::RoomAgain { tab }) => Some(BagNoteView::RoomAgain { tab }),
        Some(BagNote::Stacks { tab, notes }) => Some(BagNoteView::Stacks { tab, notes: notes@ }),
        Some(BagNote::Refused { tab, reason }) => Some(BagNoteView::Refused { tab, reason }),
    }
}

/// The bag check's answer: whether to send, what to report, and the outputs
/// the target's record declares when it was looked at for the first time.
#[derive(Debug)]
pub struct BagCheck {
    pub send: bool,
    pub note: Option<BagNote>,
    pub declared: Option<Vec<DropOutput>>,
}

/// Why a send cannot go now.
#[derive(Debug, Clone, Copy, PartialEq, Eq, Structural)]
pub enum NotReady {
    /// The pickup descriptor is not resolved.
    NoDescriptor,
    /// The sweep hook has not fired yet.
    NoSweep,
    /// The previous request is still pending.
    Pending,
}

/// What a review of the nodes sent for has to report, in the order it
/// found it.
#[derive(Debug)]
pub enum ReviewNote {
    /// The node went (or stopped being a gather node): gathered.
    Gone { name: String, eid: u32, age_ms: u64, gathered: u32, sent: u32 },
    /// The node still stands after the cooldown: eligible again.
    StillThere { name: String, eid: u32, age_ms: u64, failures: u32 },
    /// Too many refusals in a row: auto mode turned itself off.
    AutoOff,
}

pub enum ReviewNoteView {
    Gone { name: Seq<char>, eid: u32, age_ms: u64, gathered: u32, sent: u32 },
    StillThere { name: Seq<char>, eid: u32, age_ms: u64, failures: u32 },
    AutoOff,
}

impl View for ReviewNote {
    type V = ReviewNoteView;

    open spec fn view(&self) -> ReviewNoteView {
        match self {
            ReviewNote::Gone { name, eid, age_ms, gathered, sent } => ReviewNoteView::Gone {
                name: name@,
                eid: *eid,
                age_ms: *age_ms,
                gathered: *gathered,
                sent: *sent,
            },
            ReviewNote::StillThere { name, eid, age_ms, failures } => ReviewNoteView::StillThere {
                name: name@,
                eid: *eid,
                age_ms: *age_ms,
                failures: *failures,
            },
            ReviewNote::AutoOff => ReviewNoteView::AutoOff,
        }
    }
}

pub open spec fn review_notes_view(v: Seq<ReviewNote>) -> Seq<ReviewNoteView> {
    v.map_values(|n: ReviewNote| n@)
}

pub struct Gatherer {
    pub auto: bool,
    unarmed: bool,
    items: bool,
    gear: bool,
    bag_tab: Option<i16>,
    stack_limit: u32,
    /// item key -> item record index, filled lazily.
    item_index_cache: Vec<(u32, u16)>,
    /// Whether a full bag was reported since it last had room.
    bag_full_reported: bool,
    /// The last refusal reported at a full bag.
    bag_full_reason: Option<Refusal>,
    /// Records whose declared outputs were handed out once.
    yield_logged: Vec<u16>,
    interval_ms: u64,
    cooldown_ms: u64,
    done: Vec<Done>,
    last_send: Option<u64>,
    last_review: Option<u64>,
    last_idle_log: Option<u64>,
    pub sent: u32,
    pub gathered: u32,
    /// Sends whose target was still standing when the cooldown ran out.
    consecutive_failures: u32,
}

pub struct GathererView {
    pub auto: bool,
    pub unarmed: bool,
    pub items: bool,
    pub gear: bool,
    pub bag_tab: Option<i16>,
    pub stack_limit: u32,
    pub cache: Seq<(u32, u16)>,
    pub bag_full_reported: bool,
    pub bag_full_reason: Option<Refusal>,
    pub yield_logged: Seq<u16>,
    pub interval_ms: u64,
    pub cooldown_ms: u64,
    pub done: Seq<DoneView>,
    pub last_send: Option<u64>,
    pub last_review: Option<u64>,
    pub last_idle_log: Option<u64>,
    pub sent: u32,
    pub gathered: u32,
    pub consecutive_failures: u32,
}

pub open spec fn dones_view(v: Seq<Done>) -> Seq<DoneView> {
    v.map_values(|d: Done| d@)
}

impl View for Gatherer {
    type V = GathererView;

    closed spec fn view(&self) -> GathererView {
        GathererView {
            auto: self.auto,
            unarmed: self.unarmed,
            items: self.items,
            gear: self.gear,
            bag_tab: self.bag_tab,
            stack_limit: self.stack_limit,
            cache: self.item_index_cache@,
            bag_full_reported: self.bag_full_reported,
            bag_full_reason: self.bag_full_reason,
            yield_logged: self.yield_logged@,
            interval_ms: self.interval_ms,
            cooldown_ms: self.cooldown_ms,
            done: dones_view(self.done@),
            last_send: self.last_send,
            last_review: self.last_review,
            last_idle_log: self.last_idle_log,
            sent: self.sent,
            gathered: self.gathered,
            consecutive_failures: self.consecutive_failures,
        }
    }
}

/// Every send is accounted for: a node still waited on, one gathered, or one
/// of the refusals counted in a row (or dropped unanswered).
pub open spec fn gatherer_wf(g: GathererView) -> bool {
    g.consecutive_failures + g.gathered + g.done.len() <= g.sent
}

/// The record index cached for `key`, the first entry that has it.
pub open spec fn cache_find(cache: Seq<(u32, u16)>, key: u32) -> Option<u16>
    decreases cache.len(),
{
    if cache.len() == 0 {
        None
    } else if cache[0].0 == key {
        Some(cache[0].1)
    } else {
        cache_find(cache.skip(1), key)
    }
}

/// The item record index for `key`: from the cache when it has it, else by a
/// scan of the item table.
#[verifier::opaque]
pub open spec fn index_via(cache: Seq<(u32, u16)>, m: Seq<SpecRegion>, md: MainModule, slots: TableSlots, key: u32) -> Option<u16> {
    match cache_find(cache, key) {
        Some(i) => Some(i),
        None => item_index_spec(m, md, slots, key),
    }
}

proof fn lemma_cache_push(cache: Seq<(u32, u16)>, k: u32, i: u16, key: u32)
    ensures
        cache_find(cache.push((k, i)), key) == match cache_find(cache, key) {
            Some(j) => Some(j),
            None => if k == key { Some(i) } else { None },
        },
    decreases cache.len(),
{
    if cache.len() > 0 {
        assert(cache.push((k, i))[0] == cache[0]);
        assert(cache.push((k, i)).skip(1) =~= cache.skip(1).push((k, i)));
        lemma_cache_push(cache.skip(1), k, i, key);
    } else {
        assert(cache.push((k, i))[0] == (k, i));
        assert(cache.push((k, i)).skip(1) =~= Seq::<(u32, u16)>::empty());
        assert(cache_find(cache.push((k, i)).skip(1), key) is None);
        assert(cache_find(cache, key) is None);
    }
}

/// A declared maximum as the bag check counts it, held in 32 bits.
pub open spec fn cap_u32(x: u64) -> u32 {
    if x > u32::MAX { u32::MAX } else { x as u32 }
}

/// `out` with `count` of `item`: its entry raised to the larger of the two,
/// or a new entry at the end.
pub open spec fn raise_item(out: Seq<(u32, u32)>, item: u32, count: u32) -> Seq<(u32, u32)> {
    match item_slot(out, item) {
        Some(j) => out.update(j, (item, if out[j].1 >= count { out[j].1 } else { count })),
        None => out.push((item, count)),
    }
}

/// Per distinct item of the declared outputs, in order of first appearance,
/// the largest `max`: a gather pays out one block, so that is the margin the
/// bag must have.
pub open spec fn merge_drops(d: Seq<DropOutput>) -> Seq<(u32, u32)>
    decreases d.len(),
{
    if d.len() == 0 {
        Seq::empty()
    } else {
        raise_item(merge_drops(d.drop_last()), d.last().item, cap_u32(d.last().max))
    }
}

/// The declared outputs with a learned pair folded in: it raises its item's
/// margin, or adds an item the record does not list.
pub open spec fn merged_yields(d: Seq<DropOutput>, learned: Option<(u32, u32)>) -> Seq<(u32, u32)> {
    match learned {
        Some(p) => raise_item(merge_drops(d), p.0, p.1),
        None => merge_drops(d),
    }
}

/// The outputs the record behind gimmick index `record` declares.
pub open spec fn declared_spec(m: Seq<SpecRegion>, md: MainModule, slots: TableSlots, limits: DropLimits, record: u16) -> Option<Seq<DropOutput>> {
    match record_spec(m, md, slots.gimmick, record as int) {
        Some(rec) => gimmick_drops_spec(m, rec as int, limits),
        None => None,
    }
}

/// What a node can pay out, as `(item key, count)` per distinct item: the
/// declared outputs merged with what was learned; only the learned pair when
/// the record does not read; unknown when neither is there.
pub open spec fn node_yields_spec(declared: Option<Seq<DropOutput>>, learned: Option<(u32, u32)>) -> Result<Seq<(u32, u32)>, Refusal> {
    match declared {
        Some(d) => if merged_yields(d, learned).len() == 0 {
            Err(Refusal::YieldUnknown)
        } else {
            Ok(merged_yields(d, learned))
        },
        None => match learned {
            Some(p) => Ok(seq![p]),
            None => Err(Refusal::YieldUnknown),
        },
    }
}

pub open spec fn yields_view(r: Result<Vec<(u32, u32)>, Refusal>) -> Result<Seq<(u32, u32)>, Refusal> {
    match r {
        Ok(v) => Ok(v@),
        Err(e) => Err(e),
    }
}

pub open spec fn drops_view(r: Option<Vec<DropOutput>>) -> Option<Seq<DropOutput>> {
    match r {
        Some(v) => Some(v@),
        None => None,
    }
}

/// Raise `item`'s entry of `out` to `count`, or append it.
fn raise(out: &mut Vec<(u32, u32)>, item: u32, count: u32)
    ensures
        final(out)@ == raise_item(old(out)@, item, count),
{
    let ghost items0 = out@;
    proof {
        lemma_item_slot(items0, item);
    }
    let mut i: usize = 0;
    while i < out.len() && out[i].0 != item
        invariant
            0 <= i <= out@.len(),
            out@ == items0,
            forall|j: int| 0 <= j < i ==> (#[trigger] items0[j]).0 != item,
        decreases out@.len() - i,
    {
        i = i + 1;
    }
    if i < out.len() {
        proof {
            lemma_item_slot_first(items0, item, i as int);
        }
        let c = out[i].1;
        let m = if c >= count { c } else { count };
        out.set(i, (item, m));
    } else {
        out.push((item, count));
    }
}

/// The declared outputs merged per item, then the learned pair.
pub fn merge_yields(drops: &[DropOutput], learned: Option<(u32, u32)>) -> (r: Vec<(u32, u32)>)
    ensures
        r@ == merged_yields(drops@, learned),
{
    let mut out: Vec<(u32, u32)> = Vec::new();
    let mut i: usize = 0;
    while i < drops.len()
        invariant
            0 <= i <= drops@.len(),
            out@ == merge_drops(drops@.take(i as int)),
        decreases drops@.len() - i,
    {
        proof {
            assert(drops@.take(i + 1).drop_last() =~= drops@.take(i as int));
            assert(drops@.take(i + 1).last() == drops@[i as int]);
        }
        let d = drops[i];
        let count = if d.max > u32::MAX as u64 { u32::MAX } else { d.max as u32 };
        raise(&mut out, d.item, count);
        i = i + 1;
    }
    assert(drops@.take(drops@.len() as int) =~= drops@);
    match learned {
        Some((item, count)) => raise(&mut out, item, count),
        None => {},
    }
    out
}

/// The largest count among the slots holding item record `idx`.
pub open spec fn best_count(slots: Seq<InventorySlot>, idx: u16) -> Option<i64>
    decreases slots.len(),
{
    if slots.len() == 0 {
        None
    } else {
        let s = slots.last();
        let rest = best_count(slots.drop_last(), idx);
        if s.item_index == idx {
            match rest {
                Some(c) => Some(if s.count >= c { s.count } else { c }),
                None => Some(s.count),
            }
        } else {
            rest
        }
    }
}

/// Whether `count` more of item `y.0` stacks onto the bag: its record is
/// known, the bag holds a real stack of it (two or more proves it stacks),
/// and the result stays within `limit`.
pub open spec fn item_verdict(y: (u32, u32), slots: Seq<InventorySlot>, idx: Option<u16>, limit: u32) -> Result<StackNote, Refusal> {
    match idx {
        None => Err(Refusal::NotInItemTable { item: y.0 }),
        Some(i) => match best_count(slots, i) {
            None => Err(Refusal::NoStack { item: y.0 }),
            Some(c) => if c < 2 {
                Err(Refusal::Single { item: y.0 })
            } else if c + y.1 > limit {
                Err(Refusal::PastLimit { item: y.0, stack: c, add: y.1, limit })
            } else {
                Ok(StackNote { item: y.0, before: c, after: (c + y.1) as i64 })
            },
        },
    }
}

/// Every yield checked in order; the first that does not stack refuses.
pub open spec fn stack_verdict(
    ys: Seq<(u32, u32)>,
    slots: Seq<InventorySlot>,
    cache: Seq<(u32, u16)>,
    m: Seq<SpecRegion>,
    md: MainModule,
    tslots: TableSlots,
    limit: u32,
) -> Result<Seq<StackNote>, Refusal>
    decreases ys.len(),
{
    if ys.len() == 0 {
        Ok(Seq::empty())
    } else {
        match stack_verdict(ys.drop_last(), slots, cache, m, md, tslots, limit) {
            Err(e) => Err(e),
            Ok(notes) => match item_verdict(ys.last(), slots, index_via(cache, m, md, tslots, ys.last().0), limit) {
                Err(e) => Err(e),
                Ok(n) => Ok(notes.push(n)),
            },
        }
    }
}

/// Whether a full bag still takes this pickup: only a gather node, whose
/// yields are known and each stack onto the bag.
pub open spec fn full_bag_verdict(
    mode: PickupMode,
    yields: Result<Seq<(u32, u32)>, Refusal>,
    slots: Option<Seq<InventorySlot>>,
    cache: Seq<(u32, u16)>,
    m: Seq<SpecRegion>,
    md: MainModule,
    tslots: TableSlots,
    limit: u32,
) -> Result<Seq<StackNote>, Refusal> {
    if mode != PickupMode::Gather {
        Err(Refusal::GroundItem)
    } else {
        match yields {
            Err(e) => Err(e),
            Ok(ys) => match slots {
                None => Err(Refusal::SlotsUnreadable),
                Some(s) => stack_verdict(ys, s, cache, m, md, tslots, limit),
            },
        }
    }
}

pub open spec fn notes_view(r: Result<Vec<StackNote>, Refusal>) -> Result<Seq<StackNote>, Refusal> {
    match r {
        Ok(v) => Ok(v@),
        Err(e) => Err(e),
    }
}

/// The largest count among `slots` holding item record `idx`.
fn best_stack(slots: &[InventorySlot], idx: u16) -> (r: Option<i64>)
    ensures
        r == best_count(slots@, idx),
{
    let mut best: Option<i64> = None;
    let mut i: usize = 0;
    while i < slots.len()
        invariant
            0 <= i <= slots@.len(),
            best == best_count(slots@.take(i as int), idx),
        decreases slots@.len() - i,
    {
        proof {
            assert(slots@.take(i + 1).drop_last() =~= slots@.take(i as int));
            assert(slots@.take(i + 1).last() == slots@[i as int]);
        }
        let s = slots[i];
        if s.item_index == idx {
            best = match best {
                Some(c) => Some(if s.count >= c { s.count } else { c }),
                None => Some(s.count),
            };
        }
        i = i + 1;
    }
    assert(slots@.take(slots@.len() as int) =~= slots@);
    best
}

/// `count` more of `item` onto the stack of `idx`, as [`item_verdict`] says.
fn stack_onto(slots: &[InventorySlot], item: u32, count: u32, idx: Option<u16>, limit: u32) -> (r: Result<StackNote, Refusal>)
    ensures
        r == item_verdict((item, count), slots@, idx, limit),
{
    let i = match idx {
        Some(i) => i,
        None => return Err(Refusal::NotInItemTable { item }),
    };
    let c = match best_stack(slots, i) {
        Some(c) => c,
        None => return Err(Refusal::NoStack { item }),
    };
    if c < 2 {
        return Err(Refusal::Single { item });
    }
    if c > limit as i64 - count as i64 {
        return Err(Refusal::PastLimit { item, stack: c, add: count, limit });
    }
    Ok(StackNote { item, before: c, after: c + count as i64 })
}

/// A refused prefix refuses the whole list, with the same reason.
proof fn lemma_stack_verdict_err(
    ys: Seq<(u32, u32)>,
    slots: Seq<InventorySlot>,
    cache: Seq<(u32, u16)>,
    m: Seq<SpecRegion>,
    md: MainModule,
    tslots: TableSlots,
    limit: u32,
    k: int,
    e: Refusal,
)
    requires
        0 <= k <= ys.len(),
        stack_verdict(ys.take(k), slots, cache, m, md, tslots, limit) == Err::<Seq<StackNote>, Refusal>(e),
    ensures
        stack_verdict(ys, slots, cache, m, md, tslots, limit) == Err::<Seq<StackNote>, Refusal>(e),
    decreases ys.len() - k,
{
    if k < ys.len() {
        assert(ys.take(k + 1).drop_last() =~= ys.take(k));
        lemma_stack_verdict_err(ys, slots, cache, m, md, tslots, limit, k + 1, e);
    } else {
        assert(ys.take(k) =~= ys);
    }
}

/// Whether a waited-on entry is for another entity than `eid`.
pub open spec fn keeps(eid: u32) -> spec_fn(DoneView) -> bool {
    |d: DoneView| d.eid != eid
}

/// Milliseconds from `t` to `now`; none when the clock reads earlier.
pub open spec fn age(now: u64, t: u64) -> u64 {
    if now >= t { (now - t) as u64 } else { 0 }
}

/// Whether `last` happened less than `span` before `now`.
pub open spec fn within(last: Option<u64>, now: u64, span: u64) -> bool {
    match last {
        Some(t) => age(now, t) < span,
        None => false,
    }
}

/// The waited-on list with entry `i` taken out: the last entry moves into
/// its place.
pub open spec fn take_out(done: Seq<DoneView>, i: int) -> Seq<DoneView> {
    done.update(i, done.last()).drop_last()
}

/// One step of a review, at entry `i`: a node no longer standing counts as
/// gathered and resets the run of refusals; one the steal check refused is
/// dropped; one still standing past the cooldown counts as a refusal and is
/// eligible again, and the refusal that completes a run turns auto mode off;
/// any other is kept and the review moves past it. A taken-out entry's
/// place is looked at again, since the last entry moved there. The state
/// after, what to report, and the entry to look at next.
pub open spec fn review_step(
    g: GathererView,
    i: int,
    standing: Seq<u32>,
    owned: Seq<u32>,
    now: u64,
) -> (GathererView, Seq<ReviewNoteView>, int) {
    let d = g.done[i];
    let a = age(now, d.sent_ms);
    let rest = take_out(g.done, i);
    if !standing.contains(d.eid) {
        let g2 = GathererView { gathered: (g.gathered + 1) as u32, consecutive_failures: 0, done: rest, ..g };
        (g2, seq![ReviewNoteView::Gone { name: d.name, eid: d.eid, age_ms: a, gathered: g2.gathered, sent: g.sent }], i)
    } else if owned.contains(d.eid) {
        (GathererView { done: rest, ..g }, Seq::empty(), i)
    } else if a > g.cooldown_ms {
        let f = (g.consecutive_failures + 1) as u32;
        let off = g.auto && f >= MAX_CONSECUTIVE_FAILURES;
        let g2 = GathererView {
            auto: if off { false } else { g.auto },
            consecutive_failures: if off { 0 } else { f },
            done: rest,
            ..g
        };
        let note = ReviewNoteView::StillThere { name: d.name, eid: d.eid, age_ms: a, failures: f };
        (g2, if off { seq![note, ReviewNoteView::AutoOff] } else { seq![note] }, i)
    } else {
        (g, Seq::empty(), i + 1)
    }
}

/// The review from entry `i` to the end of the list: its steps in turn.
pub open spec fn review_from(
    g: GathererView,
    i: int,
    standing: Seq<u32>,
    owned: Seq<u32>,
    now: u64,
) -> (GathererView, Seq<ReviewNoteView>)
    decreases g.done.len() - i,
{
    if i < 0 || i >= g.done.len() {
        (g, Seq::empty())
    } else {
        let st = review_step(g, i, standing, owned, now);
        if st.0.done.len() - st.2 < g.done.len() - i {
            let rest = review_from(st.0, st.2, standing, owned, now);
            (rest.0, st.1 + rest.1)
        } else {
            (g, Seq::empty())
        }
    }
}

/// The waited-on node list as a list of views keeps up with a take-out.
proof fn lemma_take_out_view(v: Seq<Done>, i: int)
    requires
        0 <= i < v.len(),
    ensures
        dones_view(v.update(i, v.last()).drop_last()) == take_out(dones_view(v), i),
{
    assert(dones_view(v.update(i, v.last()).drop_last()) =~= take_out(dones_view(v), i));
}

fn contains_eid(s: &[u32], eid: u32) -> (r: bool)
    ensures
        r == s@.contains(eid),
{
    let mut i: usize = 0;
    while i < s.len()
        invariant
            0 <= i <= s@.len(),
            forall|j: int| 0 <= j < i ==> s@[j] != eid,
        decreases s@.len() - i,
    {
        if s[i] == eid {
            assert(s@[i as int] == eid);
            return true;
        }
        i = i + 1;
    }
    false
}

/// Whether a send can go now.
pub fn ready_to_send(events: &Events) -> (r: Result<(), NotReady>)
    ensures
        r == (if events.descriptor_id() is None {
            Err(NotReady::NoDescriptor)
        } else if events.game_tid_spec() == 0 {
            Err(NotReady::NoSweep)
        } else if events.pending_spec() is Some {
            Err(NotReady::Pending)
        } else {
            Ok(())
        }),
{
    if events.descriptor().is_none() {
        return Err(NotReady::NoDescriptor);
    }
    if events.game_thread_id() == 0 {
        return Err(NotReady::NoSweep);
    }
    if events.has_pending() {
        return Err(NotReady::Pending);
    }
    Ok(())
}

/// Whether a waited-on entry rightly stays waited on: its node stands, the
/// steal check did not refuse it, and its cooldown has not run out.
pub open spec fn still_waited(d: DoneView, standing: Seq<u32>, owned: Seq<u32>, now: u64, cooldown_ms: u64) -> bool {
    standing.contains(d.eid) && !owned.contains(d.eid) && age(now, d.sent_ms) <= cooldown_ms
}

proof fn lemma_review_from_waits(g: GathererView, i: int, standing: Seq<u32>, owned: Seq<u32>, now: u64)
    requires
        0 <= i,
        forall|j: int| 0 <= j < i && j < g.done.len() ==> still_waited(#[trigger] g.done[j], standing, owned, now, g.cooldown_ms),
    ensures
        forall|j: int| 0 <= j < review_from(g, i, standing, owned, now).0.done.len()
            ==> still_waited(#[trigger] review_from(g, i, standing, owned, now).0.done[j], standing, owned, now, g.cooldown_ms),
        review_from(g, i, standing, owned, now).0.cooldown_ms == g.cooldown_ms,
    decreases g.done.len() - i,
{
    if i < g.done.len() {
        let st = review_step(g, i, standing, owned, now);
        assert(st.0.done.len() - st.2 < g.done.len() - i);
        assert forall|j: int| 0 <= j < st.2 && j < st.0.done.len() implies still_waited(#[trigger] st.0.done[j], standing, owned, now, g.cooldown_ms) by {
            if j < i {
                assert(st.0.done[j] == g.done[j]);
            }
        }
        lemma_review_from_waits(st.0, st.2, standing, owned, now);
    }
}

/// After a review, every node still waited on stands, was not refused by the
/// steal check, and is within its cooldown: a node that went counted as
/// gathered, and one past its cooldown became eligible again.
pub proof fn lemma_review_leaves_only_waiting(g: GathererView, standing: Seq<u32>, owned: Seq<u32>, now: u64)
    ensures
        forall|j: int| 0 <= j < review_from(g, 0, standing, owned, now).0.done.len()
            ==> still_waited(#[trigger] review_from(g, 0, standing, owned, now).0.done[j], standing, owned, now, g.cooldown_ms),
{
    lemma_review_from_waits(g, 0, standing, owned, now);
}

proof fn lemma_review_from_run(g: GathererView, i: int, standing: Seq<u32>, owned: Seq<u32>, now: u64)
    requires
        g.auto ==> g.consecutive_failures < MAX_CONSECUTIVE_FAILURES,
    ensures
        review_from(g, i, standing, owned, now).0.auto ==> review_from(g, i, standing, owned, now).0.consecutive_failures < MAX_CONSECUTIVE_FAILURES,
        review_from(g, i, standing, owned, now).0.auto ==> g.auto,
    decreases g.done.len() - i,
{
    if 0 <= i < g.done.len() {
        let st = review_step(g, i, standing, owned, now);
        if st.0.done.len() - st.2 < g.done.len() - i {
            lemma_review_from_run(st.0, st.2, standing, owned, now);
        }
    }
}

/// A review never leaves auto mode on with a full run of refusals: the
/// refusal that completes the run turns it off, and a review never turns it
/// on.
pub proof fn lemma_review_stops_refused_run(g: GathererView, standing: Seq<u32>, owned: Seq<u32>, now: u64)
    requires
        g.auto ==> g.consecutive_failures < MAX_CONSECUTIVE_FAILURES,
    ensures
        review_from(g, 0, standing, owned, now).0.auto ==> review_from(g, 0, standing, owned, now).0.consecutive_failures < MAX_CONSECUTIVE_FAILURES,
        review_from(g, 0, standing, owned, now).0.auto ==> g.auto,
{
    lemma_review_from_run(g, 0, standing, owned, now);
}

impl Gatherer {
    pub fn new(s: GatherSettings) -> (r: Gatherer)
        ensures
            r@ == (GathererView {
                auto: s.auto,
                unarmed: s.unarmed,
                items: s.items,
                gear: s.gear,
                bag_tab: s.bag_tab,
                stack_limit: s.stack_limit,
                cache: Seq::empty(),
                bag_full_reported: false,
                bag_full_reason: None,
                yield_logged: Seq::empty(),
                interval_ms: s.interval_ms,
                cooldown_ms: s.cooldown_ms,
                done: Seq::empty(),
                last_send: None,
                last_review: None,
                last_idle_log: None,
                sent: 0,
                gathered: 0,
                consecutive_failures: 0,
            }),
            gatherer_wf(r@),
    {
        let r = Gatherer {
            auto: s.auto,
            unarmed: s.unarmed,
            items: s.items,
            gear: s.gear,
            bag_tab: s.bag_tab,
            stack_limit: s.stack_limit,
            item_index_cache: Vec::new(),
            bag_full_reported: false,
            bag_full_reason: None,
            yield_logged: Vec::new(),
            interval_ms: s.interval_ms,
            cooldown_ms: s.cooldown_ms,
            done: Vec::new(),
            last_send: None,
            last_review: None,
            last_idle_log: None,
            sent: 0,
            gathered: 0,
            consecutive_failures: 0,
        };
        assert(dones_view(r.done@) =~= Seq::<DoneView>::empty());
        r
    }

    /// Flip auto mode; the new state.
    pub fn toggle(&mut self) -> (r: bool)
        ensures
            r == !old(self)@.auto,
            final(self)@ == (GathererView { auto: r, ..old(self)@ }),
    {
        self.auto = !self.auto;
        self.auto
    }

    /// Which kinds of target the caller's search may pick: unarmed nodes,
    /// ground items, gear.
    pub fn filters(&self) -> (r: (bool, bool, bool))
        ensures
            r == (self@.unarmed, self@.items, self@.gear),
    {
        (self.unarmed, self.items, self.gear)
    }

    /// How many nodes are waited on.
    pub fn outstanding(&self) -> (r: usize)
        ensures
            r == self@.done.len(),
    {
        self.done.len()
    }

    /// The item record index for `key`, cached after the first table scan.
    pub fn item_index(&mut self, mem: &Memory, md: &MainModule, slots: &TableSlots, key: u32) -> (r: Option<u16>)
        ensures
            r == index_via(old(self)@.cache, mem@, *md, *slots, key),
            final(self)@ == (GathererView {
                cache: match (cache_find(old(self)@.cache, key), r) {
                    (None, Some(i)) => old(self)@.cache.push((key, i)),
                    _ => old(self)@.cache,
                },
                ..old(self)@
            }),
            forall|k: u32| #[trigger] index_via(final(self)@.cache, mem@, *md, *slots, k)
                == index_via(old(self)@.cache, mem@, *md, *slots, k),
    {
        reveal(index_via);
        let mut j: usize = 0;
        assert(self.item_index_cache@.skip(0) =~= self.item_index_cache@);
        while j < self.item_index_cache.len()
            invariant
                0 <= j <= self.item_index_cache@.len(),
                cache_find(self.item_index_cache@, key) == cache_find(self.item_index_cache@.skip(j as int), key),
            decreases self.item_index_cache@.len() - j,
        {
            let (k, i) = self.item_index_cache[j];
            proof {
                let rest = self.item_index_cache@.skip(j as int);
                assert(rest[0] == (k, i));
                assert(rest.skip(1) =~= self.item_index_cache@.skip(j + 1));
            }
            if k == key {
                proof {
                    reveal(index_via);
                }
                return Some(i);
            }
            j = j + 1;
        }
        let found = item_index_by_key(mem, md, slots, key);
        match found {
            Some(i) => {
                proof {
                    assert forall|k: u32| #[trigger] index_via(self.item_index_cache@.push((key, i)), mem@, *md, *slots, k)
                        == index_via(self.item_index_cache@, mem@, *md, *slots, k) by {
                        lemma_cache_push(self.item_index_cache@, key, i, k);
                    }
                }
                self.item_index_cache.push((key, i));
                Some(i)
            },
            None => None,
        }
    }
    /// What the node behind gimmick record `record` can pay out, and, the
    /// first time the record is looked at, the outputs it declares.
    pub fn node_yields(
        &mut self,
        mem: &Memory,
        md: &MainModule,
        slots: &TableSlots,
        limits: DropLimits,
        events: &Events,
        record: u16,
    ) -> (r: (Result<Vec<(u32, u32)>, Refusal>, Option<Vec<DropOutput>>))
        ensures
            yields_view(r.0) == node_yields_spec(
                declared_spec(mem@, *md, *slots, limits, record),
                learned_yield(events.yields_spec(), record),
            ),
            ({
                let first = declared_spec(mem@, *md, *slots, limits, record) is Some
                    && !old(self)@.yield_logged.contains(record);
                &&& drops_view(r.1) == (if first { declared_spec(mem@, *md, *slots, limits, record) } else { None })
                &&& final(self)@ == (GathererView {
                    yield_logged: if first { old(self)@.yield_logged.push(record) } else { old(self)@.yield_logged },
                    ..old(self)@
                })
            }),
    {
        let learned = events.yield_of(record);
        let drops = match gimmick_record(mem, md, slots, record) {
            Some(rec) => gimmick_record_drops(mem, rec, limits),
            None => None,
        };
        let drops = match drops {
            Some(d) => d,
            None => {
                return match learned {
                    Some(p) => {
                        let mut v: Vec<(u32, u32)> = Vec::new();
                        v.push(p);
                        assert(v@ =~= seq![p]);
                        (Ok(v), None)
                    },
                    None => (Err(Refusal::YieldUnknown), None),
                };
            },
        };
        let mut seen = false;
        let mut k: usize = 0;
        while k < self.yield_logged.len()
            invariant
                0 <= k <= self.yield_logged@.len(),
                seen == exists|j: int| 0 <= j < k && self.yield_logged@[j] == record,
            decreases self.yield_logged@.len() - k,
        {
            if self.yield_logged[k] == record {
                seen = true;
            }
            k = k + 1;
        }
        let declared = if !seen {
            self.yield_logged.push(record);
            Some(drops.clone())
        } else {
            None
        };
        let out = merge_yields(&drops, learned);
        if out.len() == 0 {
            return (Err(Refusal::YieldUnknown), declared);
        }
        (Ok(out), declared)
    }
    /// At a full bag: whether the pickup still fits, by stacking every item
    /// the node can pay out onto a stack already there; and the outputs the
    /// record declares, the first time it is looked at.
    #[verifier::spinoff_prover]
    #[verifier::rlimit(30)]
    #[verifier::loop_isolation(false)]
    pub fn full_bag_check(
        &mut self,
        mem: &Memory,
        md: &MainModule,
        slots: &TableSlots,
        limits: DropLimits,
        events: &Events,
        bag: &InventoryTab,
        mode: PickupMode,
        record: u16,
    ) -> (r: (Result<Vec<StackNote>, Refusal>, Option<Vec<DropOutput>>))
        ensures
            notes_view(r.0) == full_bag_verdict(
                mode,
                node_yields_spec(declared_spec(mem@, *md, *slots, limits, record), learned_yield(events.yields_spec(), record)),
                tab_slots_spec(mem@, *bag),
                old(self)@.cache,
                mem@,
                *md,
                *slots,
                old(self)@.stack_limit,
            ),
            ({
                let first = mode == PickupMode::Gather && declared_spec(mem@, *md, *slots, limits, record) is Some
                    && !old(self)@.yield_logged.contains(record);
                &&& drops_view(r.1) == (if first { declared_spec(mem@, *md, *slots, limits, record) } else { None })
                &&& final(self)@ == (GathererView {
                    yield_logged: if first { old(self)@.yield_logged.push(record) } else { old(self)@.yield_logged },
                    cache: final(self)@.cache,
                    ..old(self)@
                })
            }),
            forall|k: u32| #[trigger] index_via(final(self)@.cache, mem@, *md, *slots, k)
                == index_via(old(self)@.cache, mem@, *md, *slots, k),
    {
        if mode != PickupMode::Gather {
            return (Err(Refusal::GroundItem), None);
        }
        let (yields, declared) = self.node_yields(mem, md, slots, limits, events, record);
        let yields = match yields {
            Ok(y) => y,
            Err(e) => return (Err(e), declared),
        };
        let bag_slots = match tab_slots(mem, bag) {
            Some(s) => s,
            None => return (Err(Refusal::SlotsUnreadable), declared),
        };
        let ghost cache0 = self@.cache;
        let ghost g1 = self@;
        let mut notes: Vec<StackNote> = Vec::new();
        let mut i: usize = 0;
        while i < yields.len()
            invariant
                0 <= i <= yields@.len(),
                self@ == (GathererView { cache: self@.cache, ..g1 }),
                forall|k: u32| #[trigger] index_via(self@.cache, mem@, *md, *slots, k)
                    == index_via(cache0, mem@, *md, *slots, k),
                stack_verdict(yields@.take(i as int), bag_slots@, cache0, mem@, *md, *slots, g1.stack_limit) == Ok::<Seq<StackNote>, Refusal>(notes@),
            decreases yields@.len() - i,
        {
            proof {
                assert(yields@.take(i + 1).drop_last() =~= yields@.take(i as int));
                assert(yields@.take(i + 1).last() == yields@[i as int]);
            }
            let (item, count) = yields[i];
            let idx = self.item_index(mem, md, slots, item);
            assert(idx == index_via(cache0, mem@, *md, *slots, item));
            match stack_onto(&bag_slots, item, count, idx, self.stack_limit) {
                Ok(n) => {
                    assert(stack_verdict(yields@.take(i + 1), bag_slots@, cache0, mem@, *md, *slots, g1.stack_limit)
                        == Ok::<Seq<StackNote>, Refusal>(notes@.push(n)));
                    notes.push(n);
                },
                Err(e) => {
                    proof {
                        lemma_stack_verdict_err(yields@, bag_slots@, cache0, mem@, *md, *slots, g1.stack_limit, i + 1, e);
                    }
                    return (Err(e), declared);
                },
            }
            i = i + 1;
        }
        assert(yields@.take(yields@.len() as int) =~= yields@);
        (Ok(notes), declared)
    }
    /// Whether the bag takes the pickup of `record` in `mode`. The game's own
    /// interaction refuses at a full bag, the forged event does not, so the
    /// check comes first. An unreadable inventory, or no bag tab, lets the
    /// send go unchecked; a bag with a free slot takes it; a full one takes
    /// it only when every yield stacks ([`Self::full_bag_check`]). A refusal
    /// is reported once per fill, and again when its reason changes.
    pub fn bag_has_room(
        &mut self,
        mem: &Memory,
        md: &MainModule,
        slots: &TableSlots,
        limits: DropLimits,
        events: &Events,
        tabs: Option<&[InventoryTab]>,
        mode: PickupMode,
        record: u16,
    ) -> (r: BagCheck)
        ensures
            match tabs {
                None => r.send && r.declared is None && final(self)@ == old(self)@
                    && note_view(r.note) == (if old(self)@.bag_full_reported { None } else { Some(BagNoteView::InventoryUnreadable) }),
                Some(ts) => match bag_tab_spec(ts@, old(self)@.bag_tab) {
                    None => r.send && r.declared is None && final(self)@ == old(self)@
                        && note_view(r.note) == (if old(self)@.bag_full_reported { None } else { Some(BagNoteView::NoBagTab) }),
                    Some(b) => if b.max - b.used > 0 {
                        &&& r.send
                        &&& r.declared is None
                        &&& note_view(r.note) == (if old(self)@.bag_full_reported { Some(BagNoteView::RoomAgain { tab: b }) } else { None })
                        &&& final(self)@ == (GathererView { bag_full_reported: false, ..old(self)@ })
                    } else {
                        let first = mode == PickupMode::Gather && declared_spec(mem@, *md, *slots, limits, record) is Some
                            && !old(self)@.yield_logged.contains(record);
                        let logged = if first { old(self)@.yield_logged.push(record) } else { old(self)@.yield_logged };
                        &&& drops_view(r.declared) == (if first { declared_spec(mem@, *md, *slots, limits, record) } else { None })
                        &&& forall|k: u32| #[trigger] index_via(final(self)@.cache, mem@, *md, *slots, k)
                            == index_via(old(self)@.cache, mem@, *md, *slots, k)
                        &&& match full_bag_verdict(
                            mode,
                            node_yields_spec(declared_spec(mem@, *md, *slots, limits, record), learned_yield(events.yields_spec(), record)),
                            tab_slots_spec(mem@, b),
                            old(self)@.cache,
                            mem@,
                            *md,
                            *slots,
                            old(self)@.stack_limit,
                        ) {
                            Ok(notes) => r.send && note_view(r.note) == Some(BagNoteView::Stacks { tab: b, notes })
                                && final(self)@ == (GathererView { yield_logged: logged, cache: final(self)@.cache, ..old(self)@ }),
                            Err(e) => !r.send && if !old(self)@.bag_full_reported || old(self)@.bag_full_reason != Some(e) {
                                note_view(r.note) == Some(BagNoteView::Refused { tab: b, reason: e })
                                    && final(self)@ == (GathererView {
                                        yield_logged: logged,
                                        cache: final(self)@.cache,
                                        bag_full_reported: true,
                                        bag_full_reason: Some(e),
                                        ..old(self)@
                                    })
                            } else {
                                r.note is None
                                    && final(self)@ == (GathererView { yield_logged: logged, cache: final(self)@.cache, ..old(self)@ })
                            },
                        }
                    },
                },
            },
    {
        let tabs = match tabs {
            Some(t) => t,
            None => {
                let note = if self.bag_full_reported { None } else { Some(BagNote::InventoryUnreadable) };
                return BagCheck { send: true, note, declared: None };
            },
        };
        let bag = match bag_tab(tabs, self.bag_tab) {
            Some(b) => b,
            None => {
                let note = if self.bag_full_reported { None } else { Some(BagNote::NoBagTab) };
                return BagCheck { send: true, note, declared: None };
            },
        };
        if bag.free() > 0 {
            let note = if self.bag_full_reported { Some(BagNote::RoomAgain { tab: bag }) } else { None };
            self.bag_full_reported = false;
            return BagCheck { send: true, note, declared: None };
        }
        let (verdict, declared) = self.full_bag_check(mem, md, slots, limits, events, &bag, mode, record);
        match verdict {
            Ok(notes) => BagCheck { send: true, note: Some(BagNote::Stacks { tab: bag, notes }), declared },
            Err(reason) => {
                let fresh = match self.bag_full_reason {
                    Some(last) => last != reason,
                    None => true,
                };
                if !self.bag_full_reported || fresh {
                    self.bag_full_reported = true;
                    self.bag_full_reason = Some(reason);
                    BagCheck { send: false, note: Some(BagNote::Refused { tab: bag, reason }), declared }
                } else {
                    BagCheck { send: false, note: None, declared }
                }
            },
        }
    }
    /// One step of [`Self::review`], at entry `i`; the entry to look at next.
    fn review_at(&mut self, i: usize, standing: &[u32], events: &Events, now: u64) -> (r: (usize, Vec<ReviewNote>))
        requires
            gatherer_wf(old(self)@),
            i < old(self)@.done.len(),
        ensures
            (final(self)@, review_notes_view(r.1@), r.0 as int) == review_step(old(self)@, i as int, standing@, events.owned_spec(), now),
            gatherer_wf(final(self)@),
    {
        let eid = self.done[i].eid;
        let sent_ms = self.done[i].sent_ms;
        assert(self@.done[i as int] == self.done@[i as int]@);
        let a = if now >= sent_ms { now - sent_ms } else { 0 };
        let mut notes: Vec<ReviewNote> = Vec::new();
        if !contains_eid(standing, eid) {
            self.gathered = self.gathered + 1;
            self.consecutive_failures = 0;
            proof {
                lemma_take_out_view(self.done@, i as int);
            }
            let d = self.done.swap_remove(i);
            notes.push(ReviewNote::Gone { name: d.name, eid, age_ms: a, gathered: self.gathered, sent: self.sent });
            assert(review_notes_view(notes@) =~= seq![notes@[0]@]);
            (i, notes)
        } else if events.is_owned(eid) {
            proof {
                lemma_take_out_view(self.done@, i as int);
            }
            let _ = self.done.swap_remove(i);
            assert(review_notes_view(notes@) =~= Seq::<ReviewNoteView>::empty());
            (i, notes)
        } else if a > self.cooldown_ms {
            self.consecutive_failures = self.consecutive_failures + 1;
            let failures = self.consecutive_failures;
            proof {
                lemma_take_out_view(self.done@, i as int);
            }
            let d = self.done.swap_remove(i);
            notes.push(ReviewNote::StillThere { name: d.name, eid, age_ms: a, failures });
            if self.auto && failures >= MAX_CONSECUTIVE_FAILURES {
                self.auto = false;
                self.consecutive_failures = 0;
                notes.push(ReviewNote::AutoOff);
                assert(review_notes_view(notes@) =~= seq![notes@[0]@, ReviewNoteView::AutoOff]);
            } else {
                assert(review_notes_view(notes@) =~= seq![notes@[0]@]);
            }
            (i, notes)
        } else {
            assert(review_notes_view(notes@) =~= Seq::<ReviewNoteView>::empty());
            (i + 1, notes)
        }
    }

    /// Look at every node sent for, given the entity ids still standing as
    /// gather nodes and the entities the steal check refused.
    pub fn review(&mut self, standing: &[u32], events: &Events, now: u64) -> (r: Vec<ReviewNote>)
        requires
            gatherer_wf(old(self)@),
        ensures
            final(self)@ == review_from(old(self)@, 0, standing@, events.owned_spec(), now).0,
            review_notes_view(r@) == review_from(old(self)@, 0, standing@, events.owned_spec(), now).1,
            gatherer_wf(final(self)@),
    {
        let ghost g0 = self@;
        let ghost owned = events.owned_spec();
        let mut notes: Vec<ReviewNote> = Vec::new();
        let mut i: usize = 0;
        assert(review_notes_view(notes@) + review_from(self@, 0, standing@, owned, now).1
            =~= review_from(g0, 0, standing@, owned, now).1);
        while i < self.done.len()
            invariant
                0 <= i <= self@.done.len(),
                gatherer_wf(self@),
                owned == events.owned_spec(),
                self@.done.len() == self.done@.len(),
                review_from(g0, 0, standing@, owned, now).0 == review_from(self@, i as int, standing@, owned, now).0,
                review_from(g0, 0, standing@, owned, now).1
                    == review_notes_view(notes@) + review_from(self@, i as int, standing@, owned, now).1,
            decreases self@.done.len() - i,
        {
            let ghost g = self@;
            let (j, more) = self.review_at(i, standing, events, now);
            proof {
                let rest = review_from(self@, j as int, standing@, owned, now);
                assert(review_from(g, i as int, standing@, owned, now) == (rest.0, review_notes_view(more@) + rest.1));
                assert(review_notes_view(notes@ + more@) =~= review_notes_view(notes@) + review_notes_view(more@));
                assert(review_notes_view(notes@) + (review_notes_view(more@) + rest.1)
                    =~= (review_notes_view(notes@) + review_notes_view(more@)) + rest.1);
            }
            let mut more = more;
            notes.append(&mut more);
            i = j;
        }
        proof {
            assert(review_notes_view(notes@) + Seq::<ReviewNoteView>::empty() =~= review_notes_view(notes@));
        }
        notes
    }

    /// Park a pickup request for the game thread; when it parks, count it,
    /// restart the send interval and wait for `name`'s node to go.
    pub fn send(&mut self, events: &mut Events, req: PickupRequest, name: String, now: u64) -> (ok: bool)
        requires
            gatherer_wf(old(self)@),
            old(self)@.sent < u32::MAX,
        ensures
            ok == (old(events).pending_spec() is None),
            final(events).pending_spec() == (if ok { Some((req, now)) } else { old(events).pending_spec() }),
            final(events).owned_spec() == old(events).owned_spec(),
            final(events).yields_spec() == old(events).yields_spec(),
            final(self)@ == (if ok {
                GathererView {
                    sent: (old(self)@.sent + 1) as u32,
                    last_send: Some(now),
                    done: old(self)@.done.push(DoneView { eid: req.target_eid, name: name@, sent_ms: now }),
                    ..old(self)@
                }
            } else {
                old(self)@
            }),
            gatherer_wf(final(self)@),
    {
        if !events.request(req, now) {
            return false;
        }
        self.sent = self.sent + 1;
        self.last_send = Some(now);
        let d = Done { eid: req.target_eid, name, sent_ms: now };
        proof {
            assert(dones_view(self.done@.push(d)) =~= dones_view(self.done@).push(d@));
        }
        self.done.push(d);
        true
    }

    /// Drop a request the sweep hook never drained, and stop waiting on its
    /// node, so auto mode does not stall.
    pub fn reap_stale(&mut self, events: &mut Events, now: u64) -> (r: Option<PickupRequest>)
        requires
            gatherer_wf(old(self)@),
        ensures
            r == match old(events).pending_spec() {
                Some((q, t)) => if now - t > STALE_REQUEST_MS as int { Some(q) } else { None },
                None => None,
            },
            r is Some ==> final(events).pending_spec() is None,
            r is None ==> final(events).pending_spec() == old(events).pending_spec(),
            final(events).yields_spec() == old(events).yields_spec(),
            final(self)@ == match r {
                Some(q) => GathererView { done: old(self)@.done.filter(keeps(q.target_eid)), ..old(self)@ },
                None => old(self)@,
            },
            gatherer_wf(final(self)@),
    {
        let r = events.drop_stale(STALE_REQUEST_MS, now);
        let q = match r {
            Some(q) => q,
            None => return None,
        };
        let ghost pred = keeps(q.target_eid);
        let mut kept: Vec<Done> = Vec::new();
        proof {
            assert(dones_view(self.done@).take(0).filter(pred) =~= Seq::<DoneView>::empty()) by {
                reveal(Seq::filter);
            }
            assert(dones_view(kept@) =~= Seq::<DoneView>::empty());
        }
        let mut i: usize = 0;
        while i < self.done.len()
            invariant
                0 <= i <= self.done@.len(),
                pred == keeps(q.target_eid),
                dones_view(kept@) == dones_view(self.done@).take(i as int).filter(pred),
            decreases self.done@.len() - i,
        {
            proof {
                let dv = dones_view(self.done@);
                assert(dv.take(i + 1).drop_last() =~= dv.take(i as int));
                assert(dv.take(i + 1).last() == self.done@[i as int]@);
            }
            if self.done[i].eid != q.target_eid {
                let d = Done { eid: self.done[i].eid, name: self.done[i].name.clone(), sent_ms: self.done[i].sent_ms };
                proof {
                    let dv = dones_view(self.done@);
                    assert(d@ == dv[i as int]);
                    assert(dones_view(kept@.push(d)) =~= dones_view(kept@).push(d@));
                    let t = dv.take(i + 1);
                    assert(t.drop_last() =~= dv.take(i as int));
                    assert(t.last() == d@);
                    assert(pred(t.last()));
                    assert(t.filter(pred) == dv.take(i as int).filter(pred).push(d@)) by {
                        reveal(Seq::filter);
                    }
                }
                kept.push(d);
            } else {
                proof {
                    let dv = dones_view(self.done@);
                    let t = dv.take(i + 1);
                    assert(t.drop_last() =~= dv.take(i as int));
                    assert(t.last() == dv[i as int]);
                    assert(!pred(t.last()));
                    assert(t.filter(pred) == dv.take(i as int).filter(pred)) by {
                        reveal(Seq::filter);
                    }
                }
            }
            i = i + 1;
        }
        proof {
            let dv = dones_view(self.done@);
            assert(dv.take(dv.len() as int) =~= dv);
            dv.lemma_filter_len(pred);
        }
        self.done = kept;
        Some(q)
    }

    /// Whether a send and a review are due: a send when auto mode is on and
    /// the interval has passed since the last one; a review when nodes are
    /// waited on and it is time to look again.
    pub fn due(&self, now: u64) -> (r: (bool, bool))
        ensures
            r == (
                self@.auto && !within(self@.last_send, now, self@.interval_ms),
                self@.done.len() > 0 && !within(self@.last_review, now, REVIEW_EVERY_MS),
            ),
    {
        let send_due = self.auto && !match self.last_send {
            Some(t) => (if now >= t { now - t } else { 0 }) < self.interval_ms,
            None => false,
        };
        let review_due = self.done.len() > 0 && !match self.last_review {
            Some(t) => (if now >= t { now - t } else { 0 }) < REVIEW_EVERY_MS,
            None => false,
        };
        (send_due, review_due)
    }

    /// A review happened now.
    pub fn note_review(&mut self, now: u64)
        ensures
            final(self)@ == (GathererView { last_review: Some(now), ..old(self)@ }),
    {
        self.last_review = Some(now);
    }

    /// Nothing was sent but the cadence goes on: the next send waits a full
    /// interval.
    pub fn keep_cadence(&mut self, now: u64)
        ensures
            final(self)@ == (GathererView { last_send: Some(now), ..old(self)@ }),
    {
        self.last_send = Some(now);
    }

    /// Whether to say that nothing is eligible: nodes are waited on and it
    /// was not said in the last `IDLE_LOG_EVERY_MS`. Saying it restarts
    /// that span.
    pub fn idle_log_due(&mut self, now: u64) -> (r: bool)
        ensures
            r == (old(self)@.done.len() > 0 && match old(self)@.last_idle_log {
                Some(t) => age(now, t) > IDLE_LOG_EVERY_MS,
                None => true,
            }),
            final(self)@ == (if r { GathererView { last_idle_log: Some(now), ..old(self)@ } } else { old(self)@ }),
    {
        let quiet_long = match self.last_idle_log {
            Some(t) => (if now >= t { now - t } else { 0 }) > IDLE_LOG_EVERY_MS,
            None => true,
        };
        if quiet_long && self.done.len() > 0 {
            self.last_idle_log = Some(now);
            return true;
        }
        false
    }

    /// Whether the target search passes over `eid`: a node waited on, or
    /// one the steal check refused.
    pub fn skips(&self, events: &Events, eid: u32) -> (r: bool)
        ensures
            r == ((exists|j: int| 0 <= j < self@.done.len() && self@.done[j].eid == eid) || events.owned_spec().contains(eid)),
    {
        let mut i: usize = 0;
        while i < self.done.len()
            invariant
                0 <= i <= self.done@.len(),
                forall|j: int| 0 <= j < i ==> self@.done[j].eid != eid,
            decreases self.done@.len() - i,
        {
            assert(self@.done[i as int] == self.done@[i as int]@);
            if self.done[i].eid == eid {
                return true;
            }
            i = i + 1;
        }
        events.is_owned(eid)
    }
}

} // verus!
