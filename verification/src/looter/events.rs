//! The forged-event side of the looter, as state: the one pending pickup
//! request the game thread takes on its next sweep, the descriptors and
//! entry points resolved at start, the entities the steal check refused,
//! and the yields learned from what the game granted.
//!
//! Times are milliseconds on a monotonic clock the caller reads.

use vstd::prelude::*;

use crate::looter::actors::in_module;
use crate::looter::game::{anchor_spec, Anchors};
use crate::looter::memory::{ptr_at, readable, u32_at, u64_at, u8_at, MainModule, Memory, SpecRegion};
use crate::looter::payload::{PickupMode, CATCH_PAYLOAD_SIZE, PICKUP_PAYLOAD_SIZE, SKIN_PAYLOAD_SIZE};
use crate::strings::{
    ascii_string, dec_spec, hex_pad, hex_upper, joined, lemma_hex_upper_ascii, lit, push_dec_text,
    push_hex_pad, push_hex_upper, push_str, push_text, text_string,
};
use vstd::string::StringSliceAdditionalSpecFns;

verus! {

/// How long after a gather event a received item is paired with it.
pub const YIELD_PAIR_WINDOW_MS: u64 = 2000;

/// The game functions and globals the event path calls and reads.
#[derive(Debug, Clone, Copy, PartialEq, Eq, Structural)]
pub struct EventApi {
    pub prepare: usize,
    pub desc_by_id: usize,
    pub alloc_event: usize,
    pub enqueue: usize,
    pub queue_slot: usize,
    pub desc_mask: usize,
    pub steal_check: usize,
    pub steal_ctx: usize,
}

/// An event descriptor found by name.
pub struct Descriptor {
    pub id: u16,
    pub ptr: usize,
    pub payload_size: u16,
    pub dispatch: u32,
    pub name: String,
}

/// One pickup the looter wants the game thread to send.
#[derive(Debug, Clone, Copy, PartialEq, Eq, Structural)]
pub struct PickupRequest {
    pub target_eid: u32,
    pub record: u16,
    pub mode: PickupMode,
    pub target_actor: usize,
    pub player_actor: usize,
    pub player_eid: u32,
    pub route: u32,
    pub flag: u8,
    pub cat: u8,
}

/// The event path's state.
pub struct Events {
    module: Option<MainModule>,
    api: Option<EventApi>,
    descriptor: Option<Descriptor>,
    catch_descriptor: Option<Descriptor>,
    skin_descriptor: Option<Descriptor>,
    handle_desc: Option<usize>,
    log_received: bool,
    pending: Option<(PickupRequest, u64)>,
    sweep_calls: u64,
    game_tid: u32,
    sent: u32,
    owned: Vec<u32>,
    yields: Vec<(u16, u32, u32)>,
    yield_dirty: bool,
    last_sent: Option<(u16, u64)>,
    skin: Option<SkinYield>,
}

/// The carcass a skin event was last sent at, when, and the items that
/// have arrived since, merged by key in arrival order. A correlation, not an
/// attribution: anything received inside the window lands here.
pub struct SkinYield {
    pub eid: u32,
    pub cat: u8,
    pub at: u64,
    pub items: Vec<(u32, u32)>,
}

pub struct SkinYieldView {
    pub eid: u32,
    pub cat: u8,
    pub at: u64,
    pub items: Seq<(u32, u32)>,
}

impl View for SkinYield {
    type V = SkinYieldView;

    open spec fn view(&self) -> SkinYieldView {
        SkinYieldView { eid: self.eid, cat: self.cat, at: self.at, items: self.items@ }
    }
}

/// The first item of `items` with key `key`.
pub open spec fn item_slot(items: Seq<(u32, u32)>, key: u32) -> Option<int>
    decreases items.len(),
{
    if items.len() == 0 {
        None
    } else {
        match item_slot(items.drop_last(), key) {
            Some(i) => Some(i),
            None => if items.last().0 == key {
                Some(items.len() - 1)
            } else {
                None
            },
        }
    }
}

/// `items` with `count` more of `key`: added to its entry, saturating, or
/// appended as a new one.
pub open spec fn merge_item(items: Seq<(u32, u32)>, key: u32, count: u32) -> Seq<(u32, u32)> {
    match item_slot(items, key) {
        Some(i) => items.update(i, (key, crate::looter::recorder::sat_add(items[i].1, count))),
        None => items.push((key, count)),
    }
}

impl Events {
    pub closed spec fn module_spec(&self) -> Option<MainModule> { self.module }
    pub closed spec fn api_spec(&self) -> Option<EventApi> { self.api }
    pub closed spec fn descriptor_id(&self) -> Option<u16> {
        match self.descriptor { Some(d) => Some(d.id), None => None }
    }
    pub closed spec fn catch_descriptor_id(&self) -> Option<u16> {
        match self.catch_descriptor { Some(d) => Some(d.id), None => None }
    }
    pub closed spec fn skin_descriptor_id(&self) -> Option<u16> {
        match self.skin_descriptor { Some(d) => Some(d.id), None => None }
    }
    pub closed spec fn handle_desc_spec(&self) -> Option<usize> { self.handle_desc }
    pub closed spec fn log_received_spec(&self) -> bool { self.log_received }
    pub closed spec fn pending_spec(&self) -> Option<(PickupRequest, u64)> { self.pending }
    pub closed spec fn sweep_calls_spec(&self) -> u64 { self.sweep_calls }
    pub closed spec fn game_tid_spec(&self) -> u32 { self.game_tid }
    pub closed spec fn sent_spec(&self) -> u32 { self.sent }
    pub closed spec fn owned_spec(&self) -> Seq<u32> { self.owned@ }
    pub closed spec fn yields_spec(&self) -> Seq<(u16, u32, u32)> { self.yields@ }
    pub closed spec fn yield_dirty_spec(&self) -> bool { self.yield_dirty }
    pub closed spec fn last_sent_spec(&self) -> Option<(u16, u64)> { self.last_sent }
    pub closed spec fn skin_spec(&self) -> Option<SkinYieldView> {
        match self.skin {
            Some(p) => Some(p@),
            None => None,
        }
    }

    /// Nothing resolved, nothing pending, nothing learned.
    pub fn new() -> (r: Events)
        ensures
            r.module_spec() is None && r.api_spec() is None,
            r.descriptor_id() is None && r.catch_descriptor_id() is None && r.skin_descriptor_id() is None,
            r.handle_desc_spec() is None && !r.log_received_spec(),
            r.pending_spec() is None && r.last_sent_spec() is None,
            r.sweep_calls_spec() == 0 && r.game_tid_spec() == 0 && r.sent_spec() == 0,
            r.owned_spec().len() == 0 && r.yields_spec().len() == 0 && !r.yield_dirty_spec(),
    {
        Events {
            module: None,
            api: None,
            descriptor: None,
            catch_descriptor: None,
            skin_descriptor: None,
            handle_desc: None,
            log_received: false,
            pending: None,
            sweep_calls: 0,
            game_tid: 0,
            sent: 0,
            owned: Vec::new(),
            yields: Vec::new(),
            yield_dirty: false,
            last_sent: None,
            skin: None,
        }
    }

    /// Set once: a later call changes nothing.
    pub fn set_module(&mut self, m: MainModule)
        ensures
            final(self).module_spec() == (if old(self).module_spec() is None { Some(m) } else { old(self).module_spec() }),
            final(self).api_spec() == old(self).api_spec(),
            final(self).pending_spec() == old(self).pending_spec(),
            final(self).yield_dirty_spec() == old(self).yield_dirty_spec(),
    {
        if self.module.is_none() {
            self.module = Some(m);
        }
    }

    /// Set once: a later call changes nothing.
    pub fn set_api(&mut self, api: EventApi)
        ensures
            final(self).api_spec() == (if old(self).api_spec() is None { Some(api) } else { old(self).api_spec() }),
            final(self).module_spec() == old(self).module_spec(),
            final(self).pending_spec() == old(self).pending_spec(),
            final(self).yield_dirty_spec() == old(self).yield_dirty_spec(),
    {
        if self.api.is_none() {
            self.api = Some(api);
        }
    }

    pub fn api(&self) -> (r: Option<EventApi>)
        ensures
            r == self.api_spec(),
    {
        self.api
    }

    /// The `PickUpItem` descriptor; set once.
    pub fn set_descriptor(&mut self, d: Descriptor)
        ensures
            final(self).descriptor_id() == (if old(self).descriptor_id() is None { Some(d.id) } else { old(self).descriptor_id() }),
            final(self).catch_descriptor_id() == old(self).catch_descriptor_id(),
            final(self).skin_descriptor_id() == old(self).skin_descriptor_id(),
            final(self).pending_spec() == old(self).pending_spec(),
            final(self).yield_dirty_spec() == old(self).yield_dirty_spec(),
    {
        if self.descriptor.is_none() {
            self.descriptor = Some(d);
        }
    }

    /// The catch descriptor; set once.
    pub fn set_catch_descriptor(&mut self, d: Descriptor)
        ensures
            final(self).catch_descriptor_id() == (if old(self).catch_descriptor_id() is None { Some(d.id) } else { old(self).catch_descriptor_id() }),
            final(self).descriptor_id() == old(self).descriptor_id(),
            final(self).skin_descriptor_id() == old(self).skin_descriptor_id(),
            final(self).pending_spec() == old(self).pending_spec(),
            final(self).yield_dirty_spec() == old(self).yield_dirty_spec(),
    {
        if self.catch_descriptor.is_none() {
            self.catch_descriptor = Some(d);
        }
    }

    /// The dead-drop descriptor; set once.
    pub fn set_skin_descriptor(&mut self, d: Descriptor)
        ensures
            final(self).skin_descriptor_id() == (if old(self).skin_descriptor_id() is None { Some(d.id) } else { old(self).skin_descriptor_id() }),
            final(self).descriptor_id() == old(self).descriptor_id(),
            final(self).catch_descriptor_id() == old(self).catch_descriptor_id(),
            final(self).pending_spec() == old(self).pending_spec(),
            final(self).yield_dirty_spec() == old(self).yield_dirty_spec(),
    {
        if self.skin_descriptor.is_none() {
            self.skin_descriptor = Some(d);
        }
    }

    pub fn descriptor(&self) -> (r: Option<&Descriptor>)
        ensures
            match r { Some(d) => self.descriptor_id() == Some(d.id), None => self.descriptor_id() is None },
    {
        self.descriptor.as_ref()
    }

    pub fn catch_descriptor(&self) -> (r: Option<&Descriptor>)
        ensures
            match r { Some(d) => self.catch_descriptor_id() == Some(d.id), None => self.catch_descriptor_id() is None },
    {
        self.catch_descriptor.as_ref()
    }

    pub fn skin_descriptor(&self) -> (r: Option<&Descriptor>)
        ensures
            match r { Some(d) => self.skin_descriptor_id() == Some(d.id), None => self.skin_descriptor_id() is None },
    {
        self.skin_descriptor.as_ref()
    }

    pub fn set_log_received(&mut self, on: bool)
        ensures
            final(self).log_received_spec() == on,
            final(self).pending_spec() == old(self).pending_spec(),
            final(self).yield_dirty_spec() == old(self).yield_dirty_spec(),
    {
        self.log_received = on;
    }

    /// The `HandleGameEvent` descriptor the received-item watch filters on;
    /// set once.
    pub fn set_handle_descriptor(&mut self, ptr: usize)
        ensures
            final(self).handle_desc_spec() == (if old(self).handle_desc_spec() is None { Some(ptr) } else { old(self).handle_desc_spec() }),
            final(self).pending_spec() == old(self).pending_spec(),
            final(self).yield_dirty_spec() == old(self).yield_dirty_spec(),
    {
        if self.handle_desc.is_none() {
            self.handle_desc = Some(ptr);
        }
    }

    pub fn sweep_calls(&self) -> (r: u64)
        ensures
            r == self.sweep_calls_spec(),
    {
        self.sweep_calls
    }

    pub fn game_thread_id(&self) -> (r: u32)
        ensures
            r == self.game_tid_spec(),
    {
        self.game_tid
    }

    pub fn sent_count(&self) -> (r: u32)
        ensures
            r == self.sent_spec(),
    {
        self.sent
    }

    /// Count one sweep callback; the first one records the game thread.
    pub fn on_sweep_call(&mut self, tid: u32) -> (first: bool)
        ensures
            first == (old(self).sweep_calls_spec() == 0),
            final(self).sweep_calls_spec() == old(self).sweep_calls_spec().wrapping_add(1),
            final(self).game_tid_spec() == (if first { tid } else { old(self).game_tid_spec() }),
            final(self).pending_spec() == old(self).pending_spec(),
            final(self).yield_dirty_spec() == old(self).yield_dirty_spec(),
    {
        let first = self.sweep_calls == 0;
        self.sweep_calls = self.sweep_calls.wrapping_add(1);
        if first {
            self.game_tid = tid;
        }
        first
    }

    /// One event went out.
    pub fn note_sent(&mut self, r: &PickupRequest, now: u64)
        ensures
            final(self).sent_spec() == old(self).sent_spec().wrapping_add(1),
            final(self).last_sent_spec() == (if r.mode == PickupMode::Gather { Some((r.record, now)) } else { old(self).last_sent_spec() }),
            final(self).pending_spec() == old(self).pending_spec(),
            final(self).yields_spec() == old(self).yields_spec(),
            final(self).yield_dirty_spec() == old(self).yield_dirty_spec(),
    {
        self.sent = self.sent.wrapping_add(1);
        if r.mode == PickupMode::Gather {
            self.last_sent = Some((r.record, now));
        }
    }

    /// Queue a request for the next sweep; refused while one is pending.
    pub fn request(&mut self, r: PickupRequest, now: u64) -> (ok: bool)
        ensures
            ok == (old(self).pending_spec() is None),
            final(self).pending_spec() == (if ok { Some((r, now)) } else { old(self).pending_spec() }),
            final(self).yields_spec() == old(self).yields_spec(),
            final(self).owned_spec() == old(self).owned_spec(),
            final(self).yield_dirty_spec() == old(self).yield_dirty_spec(),
    {
        if self.pending.is_some() {
            return false;
        }
        self.pending = Some((r, now));
        true
    }

    pub fn has_pending(&self) -> (r: bool)
        ensures
            r == (self.pending_spec() is Some),
    {
        self.pending.is_some()
    }

    /// Take the pending request, as the sweep callback does.
    pub fn take_request(&mut self) -> (r: Option<PickupRequest>)
        ensures
            r == match old(self).pending_spec() { Some(p) => Some(p.0), None => None },
            final(self).pending_spec() is None,
            final(self).yields_spec() == old(self).yields_spec(),
            final(self).yield_dirty_spec() == old(self).yield_dirty_spec(),
    {
        match self.pending.take() {
            Some((r, _)) => Some(r),
            None => None,
        }
    }

    /// Drop a request the game thread never took within `max_age` ms.
    pub fn drop_stale(&mut self, max_age: u64, now: u64) -> (r: Option<PickupRequest>)
        ensures
            match old(self).pending_spec() {
                Some((q, t)) => if now - t > max_age as int {
                    r == Some(q) && final(self).pending_spec() is None
                } else {
                    r is None && final(self).pending_spec() == old(self).pending_spec()
                },
                None => r is None && final(self).pending_spec() is None,
            },
            final(self).yields_spec() == old(self).yields_spec(),
            final(self).yield_dirty_spec() == old(self).yield_dirty_spec(),
    {
        match self.pending {
            Some((q, t)) => {
                let age = if now >= t { now - t } else { 0 };
                if age > max_age {
                    self.pending = None;
                    Some(q)
                } else {
                    None
                }
            },
            None => None,
        }
    }

    /// Whether the steal check refused this entity this session.
    pub fn is_owned(&self, eid: u32) -> (r: bool)
        ensures
            r == self.owned_spec().contains(eid),
    {
        let mut i: usize = 0;
        while i < self.owned.len()
            invariant
                0 <= i <= self.owned@.len(),
                forall|k: int| 0 <= k < i ==> self.owned@[k] != eid,
            decreases self.owned@.len() - i,
        {
            if self.owned[i] == eid {
                assert(self.owned@[i as int] == eid);
                return true;
            }
            i = i + 1;
        }
        false
    }

    /// Remember an entity the steal check refused, once.
    pub fn mark_owned(&mut self, eid: u32)
        ensures
            final(self).owned_spec() == (if old(self).owned_spec().contains(eid) { old(self).owned_spec() } else { old(self).owned_spec().push(eid) }),
            final(self).pending_spec() == old(self).pending_spec(),
            final(self).yields_spec() == old(self).yields_spec(),
            final(self).yield_dirty_spec() == old(self).yield_dirty_spec(),
            final(self).api_spec() == old(self).api_spec(),
            forall|md: PickupMode| #[trigger] final(self).desc_for(md) == old(self).desc_for(md),
    {
        if !self.is_owned(eid) {
            self.owned.push(eid);
        }
    }

    /// What a gather record gave the last time: `(item key, count)`.
    pub fn yield_of(&self, record: u16) -> (r: Option<(u32, u32)>)
        ensures
            match r {
                Some(kc) => exists|j: int| 0 <= j < self.yields_spec().len() && #[trigger] self.yields_spec()[j].0 == record
                    && kc == (self.yields_spec()[j].1, self.yields_spec()[j].2)
                    && forall|k: int| 0 <= k < j ==> (#[trigger] self.yields_spec()[k]).0 != record,
                None => forall|k: int| 0 <= k < self.yields_spec().len() ==> (#[trigger] self.yields_spec()[k]).0 != record,
            },
            r == learned_yield(self.yields_spec(), record),
    {
        let mut i: usize = 0;
        while i < self.yields.len()
            invariant
                0 <= i <= self.yields@.len(),
                forall|k: int| 0 <= k < i ==> (#[trigger] self.yields@[k]).0 != record,
            decreases self.yields@.len() - i,
        {
            let (r, k, c) = self.yields[i];
            if r == record {
                assert(self.yields_spec()[i as int].0 == record);
                proof {
                    lemma_first_record(self.yields_spec(), record, i as int);
                }
                return Some((k, c));
            }
            i = i + 1;
        }
        proof {
            lemma_first_record(self.yields_spec(), record, self.yields_spec().len() as int);
        }
        None
    }

    pub fn yields_snapshot(&self) -> (r: Vec<(u16, u32, u32)>)
        ensures
            r@ == self.yields_spec(),
    {
        let mut out: Vec<(u16, u32, u32)> = Vec::new();
        let mut i: usize = 0;
        while i < self.yields.len()
            invariant
                0 <= i <= self.yields@.len(),
                out@ == self.yields@.take(i as int),
            decreases self.yields@.len() - i,
        {
            out.push(self.yields[i]);
            i = i + 1;
            assert(out@ =~= self.yields@.take(i as int));
        }
        assert(self.yields@.take(self.yields@.len() as int) =~= self.yields@);
        out
    }

    /// Replace the learned yields with ones saved earlier.
    pub fn load_yields(&mut self, pairs: Vec<(u16, u32, u32)>)
        ensures
            final(self).yields_spec() == pairs@,
            final(self).yield_dirty_spec() == old(self).yield_dirty_spec(),
            final(self).pending_spec() == old(self).pending_spec(),
    {
        self.yields = pairs;
    }

    /// Whether a yield was learned since the last call; clears the mark.
    pub fn take_yield_dirty(&mut self) -> (r: bool)
        ensures
            r == old(self).yield_dirty_spec(),
            !final(self).yield_dirty_spec(),
            final(self).yields_spec() == old(self).yields_spec(),
            final(self).pending_spec() == old(self).pending_spec(),
    {
        let r = self.yield_dirty;
        self.yield_dirty = false;
        r
    }

    /// An item arrived: pair it with the gather event sent less than the
    /// pairing window ago, if any, and learn or raise that record's yield.
    /// Says whether a record was learned for the first time.
    pub fn note_received(&mut self, item: u32, count: u32, now: u64) -> (learned: bool)
        ensures
            final(self).last_sent_spec() is None,
            final(self).pending_spec() == old(self).pending_spec(),
            match old(self).last_sent_spec() {
                Some((record, when)) if now - when <= YIELD_PAIR_WINDOW_MS as int => {
                    let y = old(self).yields_spec();
                    match first_record(y, record) {
                        Some(j) => !learned && (if y[j].1 == item && count > y[j].2 {
                            final(self).yields_spec() == y.update(j, (record, item, count)) && final(self).yield_dirty_spec()
                        } else {
                            final(self).yields_spec() == y && final(self).yield_dirty_spec() == old(self).yield_dirty_spec()
                        }),
                        None => learned && final(self).yields_spec() == y.push((record, item, count)) && final(self).yield_dirty_spec(),
                    }
                },
                _ => !learned && final(self).yields_spec() == old(self).yields_spec()
                    && final(self).yield_dirty_spec() == old(self).yield_dirty_spec(),
            },
    {
        let sent = self.last_sent.take();
        let (record, when) = match sent {
            Some(s) => s,
            None => return false,
        };
        let age = if now >= when { now - when } else { 0 };
        if age > YIELD_PAIR_WINDOW_MS {
            return false;
        }
        let mut i: usize = 0;
        while i < self.yields.len()
            invariant
                0 <= i <= self.yields@.len(),
                forall|k: int| 0 <= k < i ==> (#[trigger] self.yields@[k]).0 != record,
                self.last_sent_spec() is None,
                old(self).last_sent_spec() == Some((record, when)),
                now - when <= YIELD_PAIR_WINDOW_MS,
                self.pending_spec() == old(self).pending_spec(),
                self.yields_spec() == old(self).yields_spec(),
                self.yield_dirty_spec() == old(self).yield_dirty_spec(),
            decreases self.yields@.len() - i,
        {
            if self.yields[i].0 == record {
                proof {
                    lemma_first_record(self.yields@, record, i as int);
                }
                let (r, k, c) = self.yields[i];
                if k == item && count > c {
                    self.yields.set(i, (r, item, count));
                    self.yield_dirty = true;
                }
                return false;
            }
            i = i + 1;
        }
        proof {
            lemma_first_record(self.yields@, record, self.yields@.len() as int);
        }
        self.yields.push((record, item, count));
        self.yield_dirty = true;
        true
    }
}

/// What the first yield entry for `record` learned: `(item key, count)`.
pub open spec fn learned_yield(y: Seq<(u16, u32, u32)>, record: u16) -> Option<(u32, u32)> {
    match first_record(y, record) {
        Some(j) => Some((y[j].1, y[j].2)),
        None => None,
    }
}

/// Index of the first yield entry for `record`.
pub open spec fn first_record(y: Seq<(u16, u32, u32)>, record: u16) -> Option<int>
    decreases y.len(),
{
    if y.len() == 0 {
        None
    } else if y[0].0 == record {
        Some(0)
    } else {
        match first_record(y.skip(1), record) {
            Some(j) => Some(j + 1),
            None => None,
        }
    }
}

proof fn lemma_first_record(y: Seq<(u16, u32, u32)>, record: u16, k: int)
    requires
        0 <= k <= y.len(),
        forall|j: int| 0 <= j < k ==> (#[trigger] y[j]).0 != record,
        k < y.len() ==> y[k].0 == record,
    ensures
        first_record(y, record) == (if k < y.len() { Some(k) } else { None::<int> }),
    decreases y.len(),
{
    if y.len() > 0 && k > 0 {
        assert forall|j: int| 0 <= j < k - 1 implies (#[trigger] y.skip(1)[j]).0 != record by {
            assert(y.skip(1)[j] == y[j + 1]);
        }
        lemma_first_record(y.skip(1), record, k - 1);
    }
}

/// The route table entry a route id selects: `None` for route 0 or an empty
/// slot; an error naming the read that failed.
#[derive(Debug, Clone, Copy, PartialEq, Eq, Structural)]
pub enum RouteError {
    Router,
    Table(usize),
    TablePointer,
    Slot(usize),
}

/// `a + b` as the address arithmetic of the target wraps it.
pub open spec fn wrap_add(a: int, b: int) -> int {
    if a + b > usize::MAX {
        a + b - (usize::MAX as int + 1)
    } else {
        a + b
    }
}

pub open spec fn route_spec(m: Seq<SpecRegion>, queue: int, route: u32) -> Result<Option<usize>, RouteError> {
    if route == 0 {
        Ok(None)
    } else {
        match ptr_at(m, wrap_add(queue, 0x38)) {
            None => Err(RouteError::Router),
            Some(router) => {
                let off: int = if (route / 0x1000_0000) % 4 == 0 { 0x38 } else { 0x40 };
                match ptr_at(m, wrap_add(router as int, off)) {
                    None => Err(RouteError::Table(off as usize)),
                    Some(table_p) => match ptr_at(m, table_p as int) {
                        None => Err(RouteError::TablePointer),
                        Some(table) => {
                            let slot = wrap_add(table as int, (route % 0x10_0000) * 0x10);
                            match u64_at(m, slot) {
                                None => Err(RouteError::Slot(slot as usize)),
                                Some(entry) => if entry == 0 { Ok(None) } else { Ok(Some(entry as usize)) },
                            }
                        },
                    },
                }
            },
        }
    }
}

/// Follow a route id through the queue's router to its table entry.
pub fn route_entry(mem: &Memory, queue: usize, route: u32) -> (r: Result<Option<usize>, RouteError>)
    ensures
        r == route_spec(mem@, queue as int, route),
{
    if route == 0 {
        return Ok(None);
    }
    let router = match mem.read_ptr(queue.wrapping_add(0x38)) {
        Some(v) => v,
        None => return Err(RouteError::Router),
    };
    let sel = (route / 0x1000_0000) % 4;
    let off: usize = if sel == 0 { 0x38 } else { 0x40 };
    let table_p = match mem.read_ptr(router.wrapping_add(off)) {
        Some(v) => v,
        None => return Err(RouteError::Table(off)),
    };
    let table = match mem.read_ptr(table_p) {
        Some(v) => v,
        None => return Err(RouteError::TablePointer),
    };
    let idx: usize = (route % 0x10_0000) as usize * 0x10;
    let slot = table.wrapping_add(idx);
    match mem.read_u64(slot) {
        Some(entry) => if entry == 0 { Ok(None) } else { Ok(Some(entry as usize)) },
        None => Err(RouteError::Slot(slot)),
    }
}

// ---------------------------------------------------------------------------
// Resolving the entry points from their call sites
// ---------------------------------------------------------------------------

/// The little-endian `i32` at offset `at` of the module image (the module's
/// mapped bytes, `[base, base + size)`), when all four bytes are inside it.
pub open spec fn image_i32(m: Seq<SpecRegion>, md: MainModule, at: int) -> Option<i32> {
    if at < 0 || at + 4 > md.size {
        None
    } else {
        match u32_at(m, md.base + at) {
            Some(v) => Some((if v < 0x8000_0000 {
                v as int
            } else {
                v - 0x1_0000_0000
            }) as i32),
            None => None,
        }
    }
}

/// The `i32` at `off` bytes past `site`, for a site inside the image.
pub open spec fn site_i32(m: Seq<SpecRegion>, md: MainModule, site: int, off: int) -> Option<i32> {
    if site < md.base {
        None
    } else {
        image_i32(m, md, site - md.base + off)
    }
}

/// The byte at offset `at` of the module image.
pub open spec fn image_u8(m: Seq<SpecRegion>, md: MainModule, at: int) -> Option<u8> {
    if at < 0 || at >= md.size {
        None
    } else {
        u8_at(m, md.base + at)
    }
}

/// An address as a 64-bit word.
pub open spec fn wrap64(t: int) -> nat {
    (t % 0x1_0000_0000_0000_0000) as nat
}

/// The target of the `rel32` operand of the instruction at `site + ins_off`
/// (`ins_len` bytes long, its displacement at `+disp_off`): an error when the
/// displacement is not in the image or the target not in the module.
pub open spec fn rel_spec(
    m: Seq<SpecRegion>,
    md: MainModule,
    site: int,
    ins_off: int,
    disp_off: int,
    ins_len: int,
) -> Result<usize, Seq<u8>> {
    match site_i32(m, md, site, ins_off + disp_off) {
        None => Err(lit("site outside image")),
        Some(d) => {
            let t = site + ins_off + ins_len + d;
            if in_module(md, t) {
                Ok(t as usize)
            } else {
                Err(lit("rel target 0x") + hex_upper(wrap64(t)) + lit(" outside module"))
            }
        },
    }
}

/// A call or `lea` target read off the image, kept only when it lands in
/// the module; 0 otherwise.
pub open spec fn target_or_zero(md: MainModule, d: Option<i32>, from: int) -> usize {
    match d {
        Some(d) => if in_module(md, from + d) {
            (from + d) as usize
        } else {
            0
        },
        None => 0,
    }
}

/// The steal check and its context, from the `own_check_site` anchor: the
/// `call rel32` at `+7`, and the `lea r9, [rip+rel32]` 0xE bytes before the
/// site when those bytes are one. 0 for whatever does not resolve.
pub open spec fn steal_spec(m: Seq<SpecRegion>, md: MainModule, hits: Seq<(&'static str, usize)>) -> (usize, usize) {
    match anchor_spec(hits, "own_check_site"@) {
        None => (0, 0),
        Some(site) => if site < md.base {
            (0, 0)
        } else {
            let rva = site - md.base;
            let f = target_or_zero(md, image_i32(m, md, rva + 8), site + 12);
            let lea_ok = image_u8(m, md, rva - 0xE) == Some(0x4Cu8) && image_u8(m, md, rva - 0xD) == Some(
                0x8Du8,
            ) && image_u8(m, md, rva - 0xC) == Some(0x0Du8);
            let c = if lea_ok {
                target_or_zero(md, image_i32(m, md, rva - 0xB), site - 0xE + 7)
            } else {
                0
            };
            (f, c)
        },
    }
}

/// The event entry points, decoded from the `desc_mask+queue_site` anchor:
/// `call prepare` at `+0`, `mov r8d, [desc_mask]` at `+5`, `call
/// descriptor_by_id` at `+0x11`, `mov r12, [queue]` at `+0x16`.
pub open spec fn resolve_spec(m: Seq<SpecRegion>, md: MainModule, hits: Seq<(&'static str, usize)>) -> Result<EventApi, Seq<u8>> {
    match anchor_spec(hits, "desc_mask+queue_site"@) {
        None => Err(lit("desc_mask+queue_site not found")),
        Some(site) => match anchor_spec(hits, "alloc_event"@) {
            None => Err(lit("alloc_event not found")),
            Some(alloc_event) => match anchor_spec(hits, "enqueue"@) {
                None => Err(lit("enqueue not found")),
                Some(enqueue) => match rel_spec(m, md, site as int, 0, 1, 5) {
                    Err(e) => Err(e),
                    Ok(prepare) => match rel_spec(m, md, site as int, 5, 3, 7) {
                        Err(e) => Err(e),
                        Ok(desc_mask) => match rel_spec(m, md, site as int, 0x11, 1, 5) {
                            Err(e) => Err(e),
                            Ok(desc_by_id) => match rel_spec(m, md, site as int, 0x16, 3, 7) {
                                Err(e) => Err(e),
                                Ok(queue_slot) => {
                                    let (steal_check, steal_ctx) = steal_spec(m, md, hits);
                                    Ok(
                                        EventApi {
                                            prepare,
                                            desc_by_id,
                                            alloc_event,
                                            enqueue,
                                            queue_slot,
                                            desc_mask,
                                            steal_check,
                                            steal_ctx,
                                        },
                                    )
                                },
                            },
                        },
                    },
                },
            },
        },
    }
}

pub open spec fn result_view<T>(r: Result<T, String>) -> Result<T, Seq<u8>> {
    match r {
        Ok(v) => Ok(v),
        Err(e) => Err(vstd::utf8::encode_utf8(e@)),
    }
}

fn text(s: &str) -> (r: String)
    ensures
        vstd::utf8::encode_utf8(r@) == lit(s),
{
    let mut v: Vec<u8> = Vec::new();
    push_str(&mut v, s);
    proof {
        vstd::utf8::encode_utf8_valid_utf8(s@);
    }
    crate::strings::utf8_string(v)
}

fn image_i32_exec(mem: &Memory, md: &MainModule, site: usize, off: usize) -> (r: Option<i32>)
    requires
        off <= 0x20,
    ensures
        r == site_i32(mem@, *md, site as int, off as int),
{
    if site < md.base {
        return None;
    }
    let rva = site - md.base;
    if rva as u128 + off as u128 + 4 > md.size as u128 {
        return None;
    }
    let at = rva + off;
    match mem.u32_at(md.base, at) {
        Some(v) => Some(if v < 0x8000_0000 {
            v as i32
        } else {
            (v as i64 - 0x1_0000_0000i64) as i32
        }),
        None => None,
    }
}

/// Decode one `rel32` operand.
fn rel(mem: &Memory, md: &MainModule, site: usize, ins_off: usize, disp_off: usize, ins_len: usize) -> (r: Result<usize, String>)
    requires
        ins_off + disp_off <= 0x20,
        ins_off + ins_len <= 0x20,
    ensures
        result_view(r) == rel_spec(mem@, *md, site as int, ins_off as int, disp_off as int, ins_len as int),
{
    let d = match image_i32_exec(mem, md, site, ins_off + disp_off) {
        Some(d) => d,
        None => {
            let e = text("site outside image");
            proof {
                reveal_strlit("site outside image");
            }
            return Err(e);
        },
    };
    let t: i128 = site as i128 + ins_off as i128 + ins_len as i128 + d as i128;
    if md.base as i128 <= t && t < md.base as i128 + md.size as i128 {
        return Ok(t as usize);
    }
    let w: u64 = if t < 0 {
        (t + 0x1_0000_0000_0000_0000i128) as u64
    } else if t >= 0x1_0000_0000_0000_0000i128 {
        (t - 0x1_0000_0000_0000_0000i128) as u64
    } else {
        t as u64
    };
    proof {
        assert(w as nat == wrap64(t as int)) by (nonlinear_arith)
            requires
                -0x1_0000_0000_0000_0000 <= t < 0x2_0000_0000_0000_0000,
                t < 0 ==> w == t + 0x1_0000_0000_0000_0000,
                t >= 0x1_0000_0000_0000_0000 ==> w == t - 0x1_0000_0000_0000_0000,
                0 <= t < 0x1_0000_0000_0000_0000 ==> w == t,
        ;
    }
    let mut v: Vec<u8> = Vec::new();
    push_str(&mut v, "rel target 0x");
    push_hex_upper(&mut v, w);
    push_str(&mut v, " outside module");
    proof {
        let a = lit("rel target 0x");
        let h = hex_upper(w as nat);
        let z = lit(" outside module");
        lemma_hex_upper_ascii(w as nat);
        crate::utf8_cuts::lemma_ascii_valid(h);
        vstd::utf8::encode_utf8_valid_utf8("rel target 0x"@);
        vstd::utf8::encode_utf8_valid_utf8(" outside module"@);
        vstd::utf8::valid_utf8_concat(a, h);
        vstd::utf8::valid_utf8_concat(a + h, z);
    }
    Err(crate::strings::utf8_string(v))
}

fn image_u8_exec(mem: &Memory, md: &MainModule, rva: usize, back: usize) -> (r: Option<u8>)
    ensures
        r == image_u8(mem@, *md, rva - back),
{
    if rva < back || rva - back >= md.size {
        return None;
    }
    mem.u8_at(md.base, rva - back)
}

fn target_or_zero_exec(md: &MainModule, d: Option<i32>, from: i128) -> (r: usize)
    requires
        -0x1_0000_0000_0000_0000 <= from <= 0x2_0000_0000_0000_0000,
    ensures
        r == target_or_zero(*md, d, from as int),
{
    match d {
        Some(d) => {
            let t = from + d as i128;
            if md.base as i128 <= t && t < md.base as i128 + md.size as i128 {
                t as usize
            } else {
                0
            }
        },
        None => 0,
    }
}

fn steal(mem: &Memory, md: &MainModule, anchors: &Anchors) -> (r: (usize, usize))
    ensures
        r == steal_spec(mem@, *md, anchors.hits@),
{
    let site = match anchors.get("own_check_site") {
        Some(s) => s,
        None => {
            proof {
                reveal_strlit("own_check_site");
            }
            return (0, 0);
        },
    };
    proof {
        reveal_strlit("own_check_site");
    }
    if site < md.base {
        return (0, 0);
    }
    let f = target_or_zero_exec(md, image_i32_exec(mem, md, site, 8), site as i128 + 12);
    let rva = site - md.base;
    let lea_ok = image_u8_exec(mem, md, rva, 0xE) == Some(0x4Cu8) && image_u8_exec(mem, md, rva, 0xD) == Some(
        0x8Du8,
    ) && image_u8_exec(mem, md, rva, 0xC) == Some(0x0Du8);
    let c = if lea_ok {
        let d = if rva < 0xB || (rva - 0xB) as u128 + 4 > md.size as u128 {
            None
        } else {
            match mem.u32_at(md.base, rva - 0xB) {
                Some(v) => Some(if v < 0x8000_0000 {
                    v as i32
                } else {
                    (v as i64 - 0x1_0000_0000i64) as i32
                }),
                None => None,
            }
        };
        proof {
            assert(d == image_i32(mem@, *md, rva - 0xB));
        }
        target_or_zero_exec(md, d, site as i128 - 0xE + 7)
    } else {
        0
    };
    (f, c)
}

/// Decode the event entry points from the anchors found in the module.
#[verifier::spinoff_prover]
#[verifier::rlimit(40)]
pub fn resolve(mem: &Memory, md: &MainModule, anchors: &Anchors) -> (r: Result<EventApi, String>)
    ensures
        result_view(r) == resolve_spec(mem@, *md, anchors.hits@),
{
    proof {
        reveal_strlit("desc_mask+queue_site");
        reveal_strlit("alloc_event");
        reveal_strlit("enqueue");
    }
    let site = match anchors.get("desc_mask+queue_site") {
        Some(s) => s,
        None => {
            let e = text("desc_mask+queue_site not found");
            proof {
                reveal_strlit("desc_mask+queue_site not found");
            }
            return Err(e);
        },
    };
    let alloc_event = match anchors.get("alloc_event") {
        Some(s) => s,
        None => {
            let e = text("alloc_event not found");
            proof {
                reveal_strlit("alloc_event not found");
            }
            return Err(e);
        },
    };
    let enqueue = match anchors.get("enqueue") {
        Some(s) => s,
        None => {
            let e = text("enqueue not found");
            proof {
                reveal_strlit("enqueue not found");
            }
            return Err(e);
        },
    };
    let (steal_check, steal_ctx) = steal(mem, md, anchors);
    let prepare = match rel(mem, md, site, 0, 1, 5) {
        Ok(t) => t,
        Err(e) => return Err(e),
    };
    let desc_mask = match rel(mem, md, site, 5, 3, 7) {
        Ok(t) => t,
        Err(e) => return Err(e),
    };
    let desc_by_id = match rel(mem, md, site, 0x11, 1, 5) {
        Ok(t) => t,
        Err(e) => return Err(e),
    };
    let queue_slot = match rel(mem, md, site, 0x16, 3, 7) {
        Ok(t) => t,
        Err(e) => return Err(e),
    };
    Ok(EventApi { prepare, desc_by_id, alloc_event, enqueue, queue_slot, desc_mask, steal_check, steal_ctx })
}

// ---------------------------------------------------------------------------
// The carcass window
// ---------------------------------------------------------------------------

pub proof fn lemma_item_slot(items: Seq<(u32, u32)>, key: u32)
    ensures
        item_slot(items, key) matches Some(i) ==> 0 <= i < items.len() && items[i].0 == key && forall|j: int|
            0 <= j < i ==> (#[trigger] items[j]).0 != key,
        item_slot(items, key) is None ==> forall|j: int| 0 <= j < items.len() ==> (#[trigger] items[j]).0 != key,
    decreases items.len(),
{
    if items.len() > 0 {
        let d = items.drop_last();
        lemma_item_slot(d, key);
        assert forall|j: int| 0 <= j < d.len() implies d[j] == items[j] by {}
    }
}

pub proof fn lemma_item_slot_first(items: Seq<(u32, u32)>, key: u32, i: int)
    requires
        0 <= i < items.len(),
        items[i].0 == key,
        forall|j: int| 0 <= j < i ==> (#[trigger] items[j]).0 != key,
    ensures
        item_slot(items, key) == Some(i),
    decreases items.len(),
{
    if i < items.len() - 1 {
        lemma_item_slot_first(items.drop_last(), key, i);
    } else {
        lemma_item_slot(items.drop_last(), key);
    }
}

impl Events {
    /// Open the window for a skin event about to be sent at `eid`.
    pub fn open_skin_window(&mut self, eid: u32, cat: u8, now: u64)
        ensures
            final(self).skin_spec() == Some(SkinYieldView { eid, cat, at: now, items: seq![] }),
            final(self).pending_spec() == old(self).pending_spec(),
            final(self).yields_spec() == old(self).yields_spec(),
            final(self).yield_dirty_spec() == old(self).yield_dirty_spec(),
    {
        self.skin = Some(SkinYield { eid, cat, at: now, items: Vec::new() });
    }

    /// Close the window again: the event it was opened for was not sent.
    pub fn close_skin_window(&mut self)
        ensures
            final(self).skin_spec() is None,
            final(self).pending_spec() == old(self).pending_spec(),
            final(self).yields_spec() == old(self).yields_spec(),
            final(self).yield_dirty_spec() == old(self).yield_dirty_spec(),
    {
        self.skin = None;
    }

    /// An item arrived: add it to the open window, while it is open.
    pub fn note_skin_received(&mut self, item: u32, count: u32, now: u64)
        ensures
            final(self).skin_spec() == match old(self).skin_spec() {
                Some(p) => if now - p.at <= YIELD_PAIR_WINDOW_MS {
                    Some(SkinYieldView { items: merge_item(p.items, item, count), ..p })
                } else {
                    Some(p)
                },
                None => None,
            },
            final(self).pending_spec() == old(self).pending_spec(),
            final(self).yields_spec() == old(self).yields_spec(),
            final(self).yield_dirty_spec() == old(self).yield_dirty_spec(),
    {
        let mut p = match self.skin.take() {
            Some(p) => p,
            None => return,
        };
        let age = if now >= p.at {
            now - p.at
        } else {
            0
        };
        if age <= YIELD_PAIR_WINDOW_MS {
            let ghost items0 = p.items@;
            proof {
                lemma_item_slot(items0, item);
            }
            let mut i: usize = 0;
            while i < p.items.len() && p.items[i].0 != item
                invariant
                    0 <= i <= p.items@.len(),
                    p.items@ == items0,
                    forall|j: int| 0 <= j < i ==> (#[trigger] items0[j]).0 != item,
                decreases p.items@.len() - i,
            {
                i = i + 1;
            }
            if i < p.items.len() {
                proof {
                    lemma_item_slot_first(items0, item, i as int);
                }
                let c = p.items[i].1;
                let sum = if c as u64 + count as u64 > u32::MAX as u64 {
                    u32::MAX
                } else {
                    c + count
                };
                p.items.set(i, (item, sum));
            } else {
                p.items.push((item, count));
            }
            proof {
                assert(p.items@ == merge_item(items0, item, count));
            }
        }
        self.skin = Some(p);
    }

    /// Take the window once it has closed, or at once when `force`: the
    /// send path forces it so that back-to-back carcasses do not pool.
    pub fn flush_skin_yield(&mut self, force: bool, now: u64) -> (r: Option<SkinYield>)
        ensures
            match old(self).skin_spec() {
                Some(p) => if force || now - p.at > YIELD_PAIR_WINDOW_MS {
                    r matches Some(q) && q@ == p && final(self).skin_spec() is None
                } else {
                    r is None && final(self).skin_spec() == old(self).skin_spec()
                },
                None => r is None && final(self).skin_spec() is None,
            },
            final(self).pending_spec() == old(self).pending_spec(),
            final(self).yields_spec() == old(self).yields_spec(),
            final(self).yield_dirty_spec() == old(self).yield_dirty_spec(),
    {
        let due = match &self.skin {
            Some(p) => force || (now >= p.at && now - p.at > YIELD_PAIR_WINDOW_MS),
            None => false,
        };
        if due {
            self.skin.take()
        } else {
            None
        }
    }
}

/// One item of the carcass line: its name when it resolves, its key, and
/// the count.
pub open spec fn skin_entry(it: (u32, u32), name: Option<Seq<u8>>) -> Seq<u8> {
    match name {
        Some(n) => n + lit(" key=") + dec_spec(it.0 as nat) + lit(" x") + dec_spec(it.1 as nat),
        None => lit("key=") + dec_spec(it.0 as nat) + lit(" x") + dec_spec(it.1 as nat),
    }
}

pub open spec fn skin_entries(items: Seq<(u32, u32)>, names: Seq<Option<Seq<u8>>>) -> Seq<Seq<u8>> {
    Seq::new(items.len(), |i: int| skin_entry(items[i], names[i]))
}

/// The carcass line: the category and the entity, then either what it gave
/// within the window `secs` says, or that it gave nothing.
pub open spec fn skin_line_spec(p: SkinYieldView, secs: Seq<u8>, names: Seq<Option<Seq<u8>>>) -> Seq<u8> {
    let head = lit("[skin] carcass cat=") + hex_pad(p.cat as nat, 2) + lit(" eid=") + hex_pad(p.eid as nat, 8);
    if p.items.len() == 0 {
        head + lit(" gave nothing within ") + secs + lit("s")
    } else {
        head + lit(" gave (within ") + secs + lit("s): ") + joined(skin_entries(p.items, names), lit("; "))
    }
}

pub open spec fn names_view(names: Seq<Option<String>>) -> Seq<Option<Seq<u8>>> {
    Seq::new(
        names.len(),
        |i: int|
            match names[i] {
                Some(s) => Some(vstd::utf8::encode_utf8(s@)),
                None => None,
            },
    )
}

/// The line a taken window prints; `secs` is the window it had, as text,
/// and `names` the items' names, one per item.
#[verifier::spinoff_prover]
#[verifier::rlimit(40)]
pub fn skin_yield_line(p: &SkinYield, secs: &str, names: &[Option<String>]) -> (r: String)
    requires
        names@.len() == p.items@.len(),
    ensures
        vstd::utf8::encode_utf8(r@) == skin_line_spec(p@, secs.spec_bytes(), names_view(names@)),
{
    let mut v: Vec<u8> = Vec::new();
    proof {
        vstd::utf8::encode_utf8_valid_utf8(Seq::<char>::empty());
        assert(vstd::utf8::encode_utf8(Seq::<char>::empty()) =~= v@);
    }
    push_text(&mut v, "[skin] carcass cat=");
    push_hex_pad(&mut v, p.cat as u64, 2);
    push_text(&mut v, " eid=");
    push_hex_pad(&mut v, p.eid as u64, 8);
    if p.items.len() == 0 {
        push_text(&mut v, " gave nothing within ");
        push_text(&mut v, secs);
        push_text(&mut v, "s");
        return text_string(v);
    }
    push_text(&mut v, " gave (within ");
    push_text(&mut v, secs);
    push_text(&mut v, "s): ");
    let ghost head = v@;
    let ghost ents = skin_entries(p.items@, names_view(names@));
    let mut i: usize = 0;
    while i < p.items.len()
        invariant
            0 <= i <= p.items@.len(),
            names@.len() == p.items@.len(),
            ents == skin_entries(p.items@, names_view(names@)),
            vstd::utf8::valid_utf8(v@),
            v@ == head + joined(ents.take(i as int), lit("; ")),
        decreases p.items@.len() - i,
    {
        let ghost before = v@;
        if i > 0 {
            push_text(&mut v, "; ");
        }
        let ghost mid = v@;
        let (key, n) = p.items[i];
        match &names[i] {
            Some(name) => {
                push_text(&mut v, name.as_str());
                push_text(&mut v, " key=");
            },
            None => {
                push_text(&mut v, "key=");
            },
        }
        push_dec_text(&mut v, key as u64);
        push_text(&mut v, " x");
        push_dec_text(&mut v, n as u64);
        proof {
            assert(v@ =~= mid + ents[i as int]);
            let t = ents.take(i + 1);
            assert(t.drop_last() =~= ents.take(i as int));
            if i == 0 {
                assert(joined(t, lit("; ")) == ents[0]);
                assert(joined(ents.take(0), lit("; ")) =~= Seq::<u8>::empty());
                assert(mid == before);
                assert(v@ =~= head + joined(t, lit("; ")));
            } else {
                assert(v@ =~= head + joined(t, lit("; ")));
            }
        }
        i = i + 1;
    }
    proof {
        assert(ents.take(p.items@.len() as int) =~= ents);
    }
    text_string(v)
}

} // verus!

verus! {

// ---------------------------------------------------------------------------
// Sending a pickup: the checks before the game is called
// ---------------------------------------------------------------------------

/// Why a pickup was not sent.
#[derive(Debug)]
pub enum SendRefusal {
    /// The event API is not resolved.
    NoApi,
    /// The descriptor the mode's event is built from is not resolved.
    NoDescriptor(PickupMode),
    /// The descriptor's payload size is not the mode's payload size.
    PayloadSize { size: usize, want: usize },
    /// The game says taking the target would be stealing.
    Stealing,
    /// The steal check could not say.
    OwnershipUnknown(String),
    /// The queue global is null or unreadable.
    QueueUnreadable,
    /// The queue object does not read.
    QueueObject(usize),
    /// The descriptor object no longer reads.
    DescriptorVanished,
    /// The route lookup failed.
    Route(RouteError),
    /// The carcass did not pass its readability checks.
    Preflight(String),
}

/// The payload size a mode's event carries.
pub open spec fn payload_size_for(mode: PickupMode) -> usize {
    match mode {
        PickupMode::Catch => CATCH_PAYLOAD_SIZE,
        PickupMode::Skin => SKIN_PAYLOAD_SIZE,
        PickupMode::Gather | PickupMode::Item => PICKUP_PAYLOAD_SIZE,
    }
}

/// A descriptor as the send path reads it: id, object and payload size.
pub open spec fn desc_key(d: Descriptor) -> (u16, usize, u16) {
    (d.id, d.ptr, d.payload_size)
}

impl Events {
    /// The descriptor a mode's event is built from.
    pub closed spec fn desc_for(&self, mode: PickupMode) -> Option<(u16, usize, u16)> {
        let d = match mode {
            PickupMode::Catch => self.catch_descriptor,
            PickupMode::Skin => self.skin_descriptor,
            PickupMode::Gather | PickupMode::Item => self.descriptor,
        };
        match d {
            Some(d) => Some(desc_key(d)),
            None => None,
        }
    }

    /// The descriptor a pickup in `mode` is sent with: the API must be
    /// resolved, the mode's descriptor too, and its payload size must be the
    /// one the mode's payload has.
    pub fn pickup_descriptor(&self, mode: PickupMode) -> (r: Result<&Descriptor, SendRefusal>)
        ensures
            match r {
                Ok(d) => self.api_spec() is Some && self.desc_for(mode) == Some(desc_key(*d))
                    && d.payload_size as usize == payload_size_for(mode),
                Err(SendRefusal::NoApi) => self.api_spec() is None,
                Err(SendRefusal::NoDescriptor(m)) => self.api_spec() is Some && m == mode && self.desc_for(mode) is None,
                Err(SendRefusal::PayloadSize { size, want }) => self.api_spec() is Some && want == payload_size_for(mode)
                    && (self.desc_for(mode) matches Some(k) && k.2 as usize == size && size != want),
                Err(_) => false,
            },
    {
        if self.api.is_none() {
            return Err(SendRefusal::NoApi);
        }
        let (desc, want) = match mode {
            PickupMode::Catch => (self.catch_descriptor.as_ref(), CATCH_PAYLOAD_SIZE),
            PickupMode::Skin => (self.skin_descriptor.as_ref(), SKIN_PAYLOAD_SIZE),
            PickupMode::Gather | PickupMode::Item => (self.descriptor.as_ref(), PICKUP_PAYLOAD_SIZE),
        };
        let desc = match desc {
            Some(d) => d,
            None => return Err(SendRefusal::NoDescriptor(mode)),
        };
        let size = desc.payload_size as usize;
        if size != want {
            return Err(SendRefusal::PayloadSize { size, want });
        }
        Ok(desc)
    }

    /// What the steal check's answer means for a send to `eid`: go on when
    /// taking it is not stealing; otherwise, or when the check could not
    /// say, refuse and remember the entity for the session.
    pub fn steal_outcome(&mut self, eid: u32, verdict: Result<bool, String>) -> (r: Result<(), SendRefusal>)
        ensures
            match verdict {
                Ok(false) => r is Ok && final(self).owned_spec() == old(self).owned_spec(),
                Ok(true) => r matches Err(SendRefusal::Stealing),
                Err(e) => r matches Err(SendRefusal::OwnershipUnknown(s)) && s@ == e@,
            },
            verdict != Ok::<bool, String>(false) ==> final(self).owned_spec() == (if old(self).owned_spec().contains(eid) {
                old(self).owned_spec()
            } else {
                old(self).owned_spec().push(eid)
            }),
            final(self).pending_spec() == old(self).pending_spec(),
            final(self).yields_spec() == old(self).yields_spec(),
            final(self).yield_dirty_spec() == old(self).yield_dirty_spec(),
            final(self).api_spec() == old(self).api_spec(),
            forall|md: PickupMode| #[trigger] final(self).desc_for(md) == old(self).desc_for(md),
    {
        match verdict {
            Ok(false) => Ok(()),
            Ok(true) => {
                self.mark_owned(eid);
                Err(SendRefusal::Stealing)
            },
            Err(e) => {
                self.mark_owned(eid);
                Err(SendRefusal::OwnershipUnknown(e))
            },
        }
    }
}

/// The queue and descriptor the event goes through, checked before the game
/// is called: the queue global reads, `0x40` bytes of the queue object and
/// `0x20` of the descriptor object read, and the route resolves; its entry,
/// `None` for route 0 or a null entry.
pub fn queue_ready(mem: &Memory, api: &EventApi, desc_ptr: usize, route: u32) -> (r: Result<Option<usize>, SendRefusal>)
    ensures
        match ptr_at(mem@, api.queue_slot as int) {
            None => r matches Err(SendRefusal::QueueUnreadable),
            Some(queue) => if !readable(mem@, queue as int, 0x40) {
                r matches Err(SendRefusal::QueueObject(q)) && q == queue
            } else if !readable(mem@, desc_ptr as int, 0x20) {
                r matches Err(SendRefusal::DescriptorVanished)
            } else {
                match route_spec(mem@, queue as int, route) {
                    Ok(e) => r matches Ok(x) && x == e,
                    Err(e) => r matches Err(SendRefusal::Route(x)) && x == e,
                }
            },
        },
{
    let queue = match mem.read_ptr(api.queue_slot) {
        Some(q) => q,
        None => return Err(SendRefusal::QueueUnreadable),
    };
    if !mem.readable(queue, 0x40) {
        return Err(SendRefusal::QueueObject(queue));
    }
    if !mem.readable(desc_ptr, 0x20) {
        return Err(SendRefusal::DescriptorVanished);
    }
    match route_entry(mem, queue, route) {
        Ok(e) => Ok(e),
        Err(e) => Err(SendRefusal::Route(e)),
    }
}

/// The send path can go on for a pickup in `mode`: the API and the mode's
/// descriptor are resolved and the descriptor's payload size is the mode's.
pub open spec fn send_ready(e: Events, mode: PickupMode) -> bool {
    e.api_spec() is Some && (e.desc_for(mode) matches Some(k) && k.2 as usize == payload_size_for(mode))
}

/// The route entry an event would go out with, when the queue global, the
/// queue object and the descriptor object read and the route resolves.
pub open spec fn queue_spec(m: Seq<SpecRegion>, api: EventApi, desc: usize, route: u32) -> Option<Option<usize>> {
    match ptr_at(m, api.queue_slot as int) {
        None => None,
        Some(queue) => if !readable(m, queue as int, 0x40) || !readable(m, desc as int, 0x20) {
            None
        } else {
            match route_spec(m, queue as int, route) {
                Ok(e) => Some(e),
                Err(_) => None,
            }
        },
    }
}

/// What the caller reports to the send path: the start of a send, the
/// carcass readability checks' result, or the game's steal check's answer.
pub enum SendReply {
    Start,
    Preflight(Result<(), String>),
    Steal(Result<bool, String>),
}

/// What the send path asks for next: the carcass checks (a skin), the steal
/// check (every other mode), the enqueue with the descriptor object and the
/// route entry, or nothing, with the reason.
pub enum SendAction {
    Preflight,
    AskSteal,
    Enqueue { desc: usize, entry: Option<usize> },
    Refuse(SendRefusal),
}

impl Events {
    /// One step of sending a pickup. The descriptor and its payload size are
    /// checked first; a skin then runs only the carcass checks and never the
    /// steal check, every other mode only the steal check; the queue and the
    /// route are checked last, and only a send that passed every check is
    /// enqueued.
    pub fn send_step(&mut self, mem: &Memory, r: &PickupRequest, reply: SendReply) -> (a: SendAction)
        ensures
            final(self).api_spec() == old(self).api_spec(),
            forall|md: PickupMode| #[trigger] final(self).desc_for(md) == old(self).desc_for(md),
            final(self).pending_spec() == old(self).pending_spec(),
            final(self).yields_spec() == old(self).yields_spec(),
            final(self).yield_dirty_spec() == old(self).yield_dirty_spec(),
            final(self).owned_spec() == (if reply matches SendReply::Steal(v) && v != Ok::<bool, String>(false) {
                if old(self).owned_spec().contains(r.target_eid) {
                    old(self).owned_spec()
                } else {
                    old(self).owned_spec().push(r.target_eid)
                }
            } else {
                old(self).owned_spec()
            }),
            match reply {
                SendReply::Start => match a {
                    SendAction::Preflight => send_ready(*old(self), r.mode) && r.mode == PickupMode::Skin,
                    SendAction::AskSteal => send_ready(*old(self), r.mode) && r.mode != PickupMode::Skin,
                    SendAction::Refuse(_) => !send_ready(*old(self), r.mode),
                    _ => false,
                },
                SendReply::Preflight(Err(e)) => a matches SendAction::Refuse(SendRefusal::Preflight(s)) && s@ == e@,
                SendReply::Steal(Ok(true)) => a matches SendAction::Refuse(SendRefusal::Stealing),
                SendReply::Steal(Err(e)) => a matches SendAction::Refuse(SendRefusal::OwnershipUnknown(s)) && s@ == e@,
                _ => match a {
                    SendAction::Enqueue { desc, entry } => send_ready(*old(self), r.mode)
                        && desc == (old(self).desc_for(r.mode)->0).1
                        && queue_spec(mem@, old(self).api_spec()->0, desc, r.route) == Some(entry),
                    SendAction::Refuse(_) => !send_ready(*old(self), r.mode)
                        || queue_spec(mem@, old(self).api_spec()->0, (old(self).desc_for(r.mode)->0).1, r.route) is None,
                    _ => false,
                },
            },
    {
        match reply {
            SendReply::Start => {
                match self.pickup_descriptor(r.mode) {
                    Err(x) => SendAction::Refuse(x),
                    Ok(_) => if r.mode == PickupMode::Skin {
                        SendAction::Preflight
                    } else {
                        SendAction::AskSteal
                    },
                }
            },
            SendReply::Preflight(Err(e)) => SendAction::Refuse(SendRefusal::Preflight(e)),
            SendReply::Steal(Ok(true)) => {
                match self.steal_outcome(r.target_eid, Ok(true)) {
                    Err(x) => SendAction::Refuse(x),
                    Ok(()) => SendAction::Refuse(SendRefusal::Stealing),
                }
            },
            SendReply::Steal(Err(e)) => {
                match self.steal_outcome(r.target_eid, Err(e)) {
                    Err(x) => SendAction::Refuse(x),
                    Ok(()) => SendAction::Refuse(SendRefusal::NoApi),
                }
            },
            _ => {
                let (ptr, api) = match (self.pickup_descriptor(r.mode), self.api) {
                    (Ok(d), Some(api)) => (d.ptr, api),
                    (Err(x), _) => return SendAction::Refuse(x),
                    (Ok(_), None) => return SendAction::Refuse(SendRefusal::NoApi),
                };
                match queue_ready(mem, &api, ptr, r.route) {
                    Ok(entry) => SendAction::Enqueue { desc: ptr, entry },
                    Err(x) => SendAction::Refuse(x),
                }
            },
        }
    }
}

} // verus!
