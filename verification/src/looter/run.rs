//! The decisions of the plugin thread's loop.
//!
//! Every tick the thread may stat the ini and read it, polls the four
//! hotkeys, looks for the world and the event descriptor, answers the
//! presses, ticks the gatherer and sleeps. The outside work (the file, the
//! keyboard, the game's memory, the sound, the clock) is done by the caller;
//! what to do next is decided here, one event at a time:
//!
//! - the ini is stat'd once a second, read only when its modified time moved,
//!   and a reload is applied only when what it says differs from what runs;
//! - a hotkey is rebuilt only when its binding moved, so a key that happens to
//!   be down is not fired again;
//! - while `Enabled=0` the presses are polled and dropped, nothing else;
//! - the world is first looked for after a boot grace and then every three
//!   seconds until found, and the descriptor is retried at the same cadence.

use vstd::prelude::*;

use crate::looter::config::Config;

verus! {

/// How often the ini's modified time is looked at.
pub const INI_POLL_MS: u64 = 1000;
/// How long the game is given to load before the world is looked for.
pub const BOOT_GRACE_MS: u64 = 20_000;
/// How long after a failed look for the world or the descriptor the next one
/// is.
pub const RETRY_MS: u64 = 3000;
/// The pause at the end of every tick.
pub const TICK_MS: u64 = 30;

/// `now + ms` on the loop's millisecond clock, held at the clock's end.
pub open spec fn later_spec(now: u64, ms: u64) -> u64 {
    if now + ms > u64::MAX { u64::MAX } else { (now + ms) as u64 }
}

fn later(now: u64, ms: u64) -> (r: u64)
    ensures
        r == later_spec(now, ms),
{
    if now > u64::MAX - ms { u64::MAX } else { now + ms }
}

/// One of the four hotkeys.
#[derive(Debug, Clone, Copy, PartialEq, Eq, Structural)]
pub enum KeyRole {
    Toggle,
    Scan,
    Gather,
    Record,
}

/// The binding `cfg` gives a hotkey.
pub open spec fn binding(cfg: Config, k: KeyRole) -> u16 {
    match k {
        KeyRole::Toggle => cfg.key_toggle,
        KeyRole::Scan => cfg.key_scan,
        KeyRole::Gather => cfg.key_gather,
        KeyRole::Record => cfg.key_record,
    }
}

/// What one poll of the keyboard (and of the game thread's id) gave.
#[derive(Debug, Clone, Copy, PartialEq, Eq, Structural)]
pub struct Polled {
    pub toggle: bool,
    pub record: bool,
    pub gather: bool,
    pub scan: bool,
    /// The sweep hook has seen the game thread.
    pub game_thread: bool,
}

/// What the thread knows between events.
#[derive(Debug, Clone, Copy, PartialEq, Eq, Structural)]
pub struct LoopState {
    /// The settings that run.
    pub cfg: Config,
    /// The modified time of the ini text `cfg` came from, once one was read.
    pub ini_seen: Option<u64>,
    pub next_ini_poll: u64,
    pub next_world_try: u64,
    pub world_found: bool,
    pub descriptor_ok: bool,
    pub hook_reported: bool,
    pub census_done: bool,
    /// The sweep hook went in.
    pub hooked: bool,
    /// The enqueue hook went in.
    pub recorder: bool,
    /// The event API resolved.
    pub api_ok: bool,
    /// This tick's poll, kept while the world and the descriptor are looked
    /// for.
    pub polled: Polled,
}

/// An ini that was read whole: its modified time, what it says, and whether
/// the settings held outside `Config` (the two ranges) moved.
#[derive(Debug, Clone, Copy, PartialEq, Eq, Structural)]
pub struct IniText {
    pub mtime: u64,
    pub cfg: Config,
    pub ranges_changed: bool,
}

/// What the caller hands back.
#[derive(Debug, Clone, Copy, PartialEq, Eq, Structural)]
pub enum LoopEvent {
    /// A tick starts.
    Tick { now: u64 },
    /// The ini's modified time, `None` when it cannot be stat'd.
    IniStat { mtime: Option<u64> },
    /// The ini read, `None` when the read is not to be acted on.
    IniRead { text: Option<IniText> },
    /// The keys were polled.
    Keys { polled: Polled, now: u64 },
    /// The world was looked for.
    World { found: bool, now: u64 },
    /// The descriptor was looked for; `None` when the event API was not
    /// there to look with.
    Descriptor { ok: Option<bool>, now: u64 },
}

/// What the caller is to do next, in order.
#[derive(Debug, Clone, Copy, PartialEq, Eq, Structural)]
pub enum LoopAction {
    StatIni,
    ReadIni,
    PollKeys,
    /// Log the warnings of the ini just read.
    LogWarnings,
    /// Log the reloaded settings.
    LogReload,
    SetLogReceived(bool),
    /// Hand the new settings to the gatherer.
    ApplyGatherer,
    RebuildKey(KeyRole),
    /// `Enabled` moved to this.
    LogEnabled(bool),
    FindWorld,
    ResolveDescriptor,
    Sleep(u64),
    /// Report the game thread the sweep hook saw.
    LogHook,
    /// Flip auto-gathering and log which way it went.
    ToggleGatherer,
    Beep,
    LogNoRecorder,
    ToggleRecording,
    LogNoSweepHook,
    ManualGather,
    LogNoWorldForGather,
    GatherTick,
    /// Save the learned yields when something new was learned.
    SaveYieldsIfDirty,
    Census,
    Survey,
    LogNoWorldForScan,
}

pub open spec fn no_press() -> Polled {
    Polled { toggle: false, record: false, gather: false, scan: false, game_thread: false }
}

/// The state the loop starts in at `now`, after the hooks went in.
pub open spec fn start_spec(cfg: Config, ini_seen: Option<u64>, now: u64, hooked: bool, recorder: bool, api_ok: bool) -> LoopState {
    LoopState {
        cfg,
        ini_seen,
        next_ini_poll: later_spec(now, INI_POLL_MS),
        next_world_try: later_spec(now, BOOT_GRACE_MS),
        world_found: false,
        descriptor_ok: false,
        hook_reported: false,
        census_done: false,
        hooked,
        recorder,
        api_ok,
        polled: no_press(),
    }
}

/// The rebuilds a reload from `old` to `new` asks for, appended to `a`.
pub open spec fn rebuilds(old: Config, new: Config, a: Seq<LoopAction>) -> Seq<LoopAction> {
    let a = if old.key_toggle != new.key_toggle { a.push(LoopAction::RebuildKey(KeyRole::Toggle)) } else { a };
    let a = if old.key_scan != new.key_scan { a.push(LoopAction::RebuildKey(KeyRole::Scan)) } else { a };
    let a = if old.key_gather != new.key_gather { a.push(LoopAction::RebuildKey(KeyRole::Gather)) } else { a };
    if old.key_record != new.key_record { a.push(LoopAction::RebuildKey(KeyRole::Record)) } else { a }
}

/// The rest of a tick once the world and the descriptor were seen to,
/// appended to `a`: the hook report, the presses in the order toggle,
/// record, gather, the gatherer's tick, the yields, the scan, the pause.
pub open spec fn rest_spec(s: LoopState, a: Seq<LoopAction>) -> (LoopState, Seq<LoopAction>) {
    let p = s.polled;
    let report = s.hooked && !s.hook_reported && p.game_thread;
    let a = if report { a.push(LoopAction::LogHook) } else { a };
    let a = if p.toggle { a.push(LoopAction::ToggleGatherer).push(LoopAction::Beep) } else { a };
    let a = if p.record {
        a.push(LoopAction::Beep).push(if s.recorder { LoopAction::ToggleRecording } else { LoopAction::LogNoRecorder })
    } else {
        a
    };
    let a = if p.gather {
        a.push(LoopAction::Beep).push(
            if !s.hooked {
                LoopAction::LogNoSweepHook
            } else if s.world_found {
                LoopAction::ManualGather
            } else {
                LoopAction::LogNoWorldForGather
            },
        )
    } else {
        a
    };
    let a = if s.hooked && s.world_found { a.push(LoopAction::GatherTick) } else { a };
    let a = a.push(LoopAction::SaveYieldsIfDirty);
    let census = p.scan && s.world_found && s.cfg.debug && !s.census_done;
    let a = if p.scan {
        let a = a.push(LoopAction::Beep);
        if s.world_found {
            let a = if census { a.push(LoopAction::Census) } else { a };
            a.push(LoopAction::Survey)
        } else {
            a.push(LoopAction::LogNoWorldForScan)
        }
    } else {
        a
    };
    let s2 = LoopState {
        hook_reported: s.hook_reported || report,
        census_done: s.census_done || census,
        polled: no_press(),
        ..s
    };
    (s2, a.push(LoopAction::Sleep(TICK_MS)))
}

/// Once the world was seen to: the descriptor is looked for while the
/// world is there, the API is, and the descriptor is not yet; else the rest
/// of the tick.
pub open spec fn after_world_spec(s: LoopState) -> (LoopState, Seq<LoopAction>) {
    if s.world_found && s.api_ok && !s.descriptor_ok {
        (s, seq![LoopAction::ResolveDescriptor])
    } else {
        rest_spec(s, seq![])
    }
}

/// The loop's decision on one event.
pub open spec fn step_spec(s: LoopState, ev: LoopEvent) -> (LoopState, Seq<LoopAction>) {
    match ev {
        LoopEvent::Tick { now } => if now >= s.next_ini_poll {
            (LoopState { next_ini_poll: later_spec(now, INI_POLL_MS), ..s }, seq![LoopAction::StatIni])
        } else {
            (s, seq![LoopAction::PollKeys])
        },
        LoopEvent::IniStat { mtime } => if mtime is Some && mtime != s.ini_seen {
            (s, seq![LoopAction::ReadIni])
        } else {
            (s, seq![LoopAction::PollKeys])
        },
        LoopEvent::IniRead { text } => match text {
            None => (s, seq![LoopAction::PollKeys]),
            Some(t) => {
                let s1 = LoopState { ini_seen: Some(t.mtime), ..s };
                if t.cfg != s.cfg || t.ranges_changed {
                    let a = seq![
                        LoopAction::LogWarnings,
                        LoopAction::LogReload,
                        LoopAction::SetLogReceived(t.cfg.enabled && t.cfg.log_received),
                        LoopAction::ApplyGatherer
                    ];
                    let a = rebuilds(s.cfg, t.cfg, a);
                    let a = if s.cfg.enabled != t.cfg.enabled { a.push(LoopAction::LogEnabled(t.cfg.enabled)) } else { a };
                    (LoopState { cfg: t.cfg, ..s1 }, a.push(LoopAction::PollKeys))
                } else {
                    (s1, seq![LoopAction::PollKeys])
                }
            },
        },
        LoopEvent::Keys { polled, now } => if !s.cfg.enabled {
            (s, seq![LoopAction::Sleep(TICK_MS)])
        } else {
            let s1 = LoopState { polled, ..s };
            if !s.world_found && now >= s.next_world_try {
                (s1, seq![LoopAction::FindWorld])
            } else {
                after_world_spec(s1)
            }
        },
        LoopEvent::World { found, now } => {
            let s1 = LoopState {
                world_found: found,
                next_world_try: if found { s.next_world_try } else { later_spec(now, RETRY_MS) },
                ..s
            };
            after_world_spec(s1)
        },
        LoopEvent::Descriptor { ok, now } => match ok {
            None => rest_spec(s, seq![]),
            Some(true) => rest_spec(LoopState { descriptor_ok: true, ..s }, seq![]),
            Some(false) => rest_spec(
                LoopState { descriptor_ok: false, next_world_try: later_spec(now, RETRY_MS), ..s },
                seq![LoopAction::Sleep(RETRY_MS)],
            ),
        },
    }
}

impl LoopState {
    /// The state the loop starts in at `now`: the ini first looked at a
    /// second later, the world after the boot grace.
    pub fn new(cfg: Config, ini_seen: Option<u64>, now: u64, hooked: bool, recorder: bool, api_ok: bool) -> (r: LoopState)
        ensures
            r == start_spec(cfg, ini_seen, now, hooked, recorder, api_ok),
    {
        LoopState {
            cfg,
            ini_seen,
            next_ini_poll: later(now, INI_POLL_MS),
            next_world_try: later(now, BOOT_GRACE_MS),
            world_found: false,
            descriptor_ok: false,
            hook_reported: false,
            census_done: false,
            hooked,
            recorder,
            api_ok,
            polled: Polled { toggle: false, record: false, gather: false, scan: false, game_thread: false },
        }
    }
}

fn push_rebuilds(cur: &Config, new: &Config, a: &mut Vec<LoopAction>)
    ensures
        final(a)@ == rebuilds(*cur, *new, old(a)@),
{
    if cur.key_toggle != new.key_toggle {
        a.push(LoopAction::RebuildKey(KeyRole::Toggle));
    }
    if cur.key_scan != new.key_scan {
        a.push(LoopAction::RebuildKey(KeyRole::Scan));
    }
    if cur.key_gather != new.key_gather {
        a.push(LoopAction::RebuildKey(KeyRole::Gather));
    }
    if cur.key_record != new.key_record {
        a.push(LoopAction::RebuildKey(KeyRole::Record));
    }
}

fn rest(s: LoopState, a: Vec<LoopAction>) -> (r: (LoopState, Vec<LoopAction>))
    ensures
        (r.0, r.1@) == rest_spec(s, a@),
{
    let mut a = a;
    let p = s.polled;
    let report = s.hooked && !s.hook_reported && p.game_thread;
    if report {
        a.push(LoopAction::LogHook);
    }
    if p.toggle {
        a.push(LoopAction::ToggleGatherer);
        a.push(LoopAction::Beep);
    }
    if p.record {
        a.push(LoopAction::Beep);
        a.push(if s.recorder { LoopAction::ToggleRecording } else { LoopAction::LogNoRecorder });
    }
    if p.gather {
        a.push(LoopAction::Beep);
        a.push(
            if !s.hooked {
                LoopAction::LogNoSweepHook
            } else if s.world_found {
                LoopAction::ManualGather
            } else {
                LoopAction::LogNoWorldForGather
            },
        );
    }
    if s.hooked && s.world_found {
        a.push(LoopAction::GatherTick);
    }
    a.push(LoopAction::SaveYieldsIfDirty);
    let census = p.scan && s.world_found && s.cfg.debug && !s.census_done;
    if p.scan {
        a.push(LoopAction::Beep);
        if s.world_found {
            if census {
                a.push(LoopAction::Census);
            }
            a.push(LoopAction::Survey);
        } else {
            a.push(LoopAction::LogNoWorldForScan);
        }
    }
    a.push(LoopAction::Sleep(TICK_MS));
    let s2 = LoopState {
        hook_reported: s.hook_reported || report,
        census_done: s.census_done || census,
        polled: Polled { toggle: false, record: false, gather: false, scan: false, game_thread: false },
        ..s
    };
    (s2, a)
}

fn after_world(s: LoopState) -> (r: (LoopState, Vec<LoopAction>))
    ensures
        (r.0, r.1@) == after_world_spec(s),
{
    if s.world_found && s.api_ok && !s.descriptor_ok {
        (s, vec![LoopAction::ResolveDescriptor])
    } else {
        rest(s, Vec::new())
    }
}

fn on_ini_stat(s: &LoopState, mtime: Option<u64>) -> (r: (LoopState, Vec<LoopAction>))
    ensures
        (r.0, r.1@) == step_spec(*s, LoopEvent::IniStat { mtime }),
{
    let moved = match mtime {
        Some(t) => match s.ini_seen {
            Some(seen) => t != seen,
            None => true,
        },
        None => false,
    };
    if moved {
        (*s, vec![LoopAction::ReadIni])
    } else {
        (*s, vec![LoopAction::PollKeys])
    }
}

#[verifier::spinoff_prover]
fn on_ini_read(s: &LoopState, text: Option<IniText>) -> (r: (LoopState, Vec<LoopAction>))
    ensures
        (r.0, r.1@) == step_spec(*s, LoopEvent::IniRead { text }),
{
    match text {
        None => (*s, vec![LoopAction::PollKeys]),
        Some(t) => {
            let s1 = LoopState { ini_seen: Some(t.mtime), ..*s };
            if t.cfg != s.cfg || t.ranges_changed {
                let mut a = vec![
                    LoopAction::LogWarnings,
                    LoopAction::LogReload,
                    LoopAction::SetLogReceived(t.cfg.enabled && t.cfg.log_received),
                    LoopAction::ApplyGatherer,
                ];
                push_rebuilds(&s.cfg, &t.cfg, &mut a);
                if s.cfg.enabled != t.cfg.enabled {
                    a.push(LoopAction::LogEnabled(t.cfg.enabled));
                }
                a.push(LoopAction::PollKeys);
                (LoopState { cfg: t.cfg, ..s1 }, a)
            } else {
                (s1, vec![LoopAction::PollKeys])
            }
        },
    }
}

fn on_keys(s: &LoopState, polled: Polled, now: u64) -> (r: (LoopState, Vec<LoopAction>))
    ensures
        (r.0, r.1@) == step_spec(*s, LoopEvent::Keys { polled, now }),
{
    if !s.cfg.enabled {
        (*s, vec![LoopAction::Sleep(TICK_MS)])
    } else {
        let s1 = LoopState { polled, ..*s };
        if !s.world_found && now >= s.next_world_try {
            (s1, vec![LoopAction::FindWorld])
        } else {
            after_world(s1)
        }
    }
}

fn on_descriptor(s: &LoopState, ok: Option<bool>, now: u64) -> (r: (LoopState, Vec<LoopAction>))
    ensures
        (r.0, r.1@) == step_spec(*s, LoopEvent::Descriptor { ok, now }),
{
    match ok {
        None => rest(*s, Vec::new()),
        Some(true) => rest(LoopState { descriptor_ok: true, ..*s }, Vec::new()),
        Some(false) => {
            let s1 = LoopState { descriptor_ok: false, next_world_try: later(now, RETRY_MS), ..*s };
            rest(s1, vec![LoopAction::Sleep(RETRY_MS)])
        },
    }
}

proof fn lemma_push_contains(a: Seq<LoopAction>, x: LoopAction, y: LoopAction)
    ensures
        a.push(x).contains(y) == (a.contains(y) || x == y),
{
    if a.contains(y) {
        let i = choose|i: int| 0 <= i < a.len() && a[i] == y;
        assert(a.push(x)[i] == y);
    }
    if x == y {
        assert(a.push(x)[a.len() as int] == y);
    }
    if a.push(x).contains(y) {
        let i = choose|i: int| 0 <= i < a.push(x).len() && a.push(x)[i] == y;
        if i < a.len() {
            assert(a[i] == y);
        }
    }
}

proof fn lemma_rebuilds(cur: Config, new: Config, a: Seq<LoopAction>, k: KeyRole)
    ensures
        rebuilds(cur, new, a).contains(LoopAction::RebuildKey(k)) == (a.contains(LoopAction::RebuildKey(k)) || binding(cur, k)
            != binding(new, k)),
        rebuilds(cur, new, a).len() >= a.len(),
        forall|i: int| 0 <= i < a.len() ==> rebuilds(cur, new, a)[i] == a[i],
{
    let y = LoopAction::RebuildKey(k);
    let a1 = if cur.key_toggle != new.key_toggle { a.push(LoopAction::RebuildKey(KeyRole::Toggle)) } else { a };
    let a2 = if cur.key_scan != new.key_scan { a1.push(LoopAction::RebuildKey(KeyRole::Scan)) } else { a1 };
    let a3 = if cur.key_gather != new.key_gather { a2.push(LoopAction::RebuildKey(KeyRole::Gather)) } else { a2 };
    lemma_push_contains(a, LoopAction::RebuildKey(KeyRole::Toggle), y);
    lemma_push_contains(a1, LoopAction::RebuildKey(KeyRole::Scan), y);
    lemma_push_contains(a2, LoopAction::RebuildKey(KeyRole::Gather), y);
    lemma_push_contains(a3, LoopAction::RebuildKey(KeyRole::Record), y);
}

/// What the loop's decisions promise, read off `step_spec`.
pub proof fn lemma_step_facts(s: LoopState, ev: LoopEvent)
    ensures
        ({
            let r = step_spec(s, ev);
            &&& ev matches LoopEvent::IniRead { text: Some(t) } ==> {
                &&& r.0.cfg == t.cfg
                &&& r.0.ini_seen == Some(t.mtime)
                &&& (r.1.len() > 1 && r.1[1] == LoopAction::LogReload) == (t.cfg != s.cfg || t.ranges_changed)
                &&& forall|k: KeyRole| #[trigger] r.1.contains(LoopAction::RebuildKey(k)) == (binding(s.cfg, k) != binding(t.cfg, k))
            }
            &&& (ev is Keys && !s.cfg.enabled) ==> (r.0 == s && r.1 == seq![LoopAction::Sleep(TICK_MS)])
            &&& ev matches LoopEvent::World { found: false, now } ==> r.0.next_world_try == later_spec(now, RETRY_MS)
            &&& ev matches LoopEvent::Descriptor { ok: Some(false), now } ==> r.0.next_world_try == later_spec(now, RETRY_MS)
                && r.1[0] == LoopAction::Sleep(RETRY_MS)
        }),
{
    match ev {
        LoopEvent::IniRead { text: Some(t) } => {
            if t.cfg != s.cfg || t.ranges_changed {
                let a = seq![
                    LoopAction::LogWarnings,
                    LoopAction::LogReload,
                    LoopAction::SetLogReceived(t.cfg.enabled && t.cfg.log_received),
                    LoopAction::ApplyGatherer
                ];
                let a1 = rebuilds(s.cfg, t.cfg, a);
                assert forall|k: KeyRole| #[trigger] step_spec(s, ev).1.contains(LoopAction::RebuildKey(k)) == (binding(s.cfg, k) != binding(t.cfg, k)) by {
                    let y = LoopAction::RebuildKey(k);
                    lemma_rebuilds(s.cfg, t.cfg, a, k);
                    assert(!a.contains(y)) by {
                        if a.contains(y) {
                            let i = choose|i: int| 0 <= i < a.len() && a[i] == y;
                            assert(a[i] == y);
                        }
                    }
                    let a2 = if s.cfg.enabled != t.cfg.enabled { a1.push(LoopAction::LogEnabled(t.cfg.enabled)) } else { a1 };
                    lemma_push_contains(a1, LoopAction::LogEnabled(t.cfg.enabled), y);
                    lemma_push_contains(a2, LoopAction::PollKeys, y);
                }
                lemma_rebuilds(s.cfg, t.cfg, a, KeyRole::Toggle);
                assert(a1.len() >= 4 && a1[1] == LoopAction::LogReload);
            } else {
                assert forall|k: KeyRole| #[trigger] step_spec(s, ev).1.contains(LoopAction::RebuildKey(k)) == (binding(s.cfg, k) != binding(t.cfg, k)) by {
                    let y = LoopAction::RebuildKey(k);
                    let r1 = seq![LoopAction::PollKeys];
                    if r1.contains(y) {
                        let i = choose|i: int| 0 <= i < r1.len() && r1[i] == y;
                        assert(r1[i] == y);
                    }
                }
            }
        },
        LoopEvent::World { found, now } => {
            let s1 = LoopState {
                world_found: found,
                next_world_try: if found { s.next_world_try } else { later_spec(now, RETRY_MS) },
                ..s
            };
            if !(s1.world_found && s1.api_ok && !s1.descriptor_ok) {
                assert(rest_spec(s1, seq![]).0.next_world_try == s1.next_world_try);
            }
        },
        LoopEvent::Descriptor { ok: Some(false), now } => {
            let s1 = LoopState { descriptor_ok: false, next_world_try: later_spec(now, RETRY_MS), ..s };
            assert(rest_spec(s1, seq![LoopAction::Sleep(RETRY_MS)]).1[0] == LoopAction::Sleep(RETRY_MS));
        },
        _ => {},
    }
}

/// No action of `a` starts a gather, by hand or on a tick.
pub open spec fn starts_no_gather(a: Seq<LoopAction>) -> bool {
    forall|i: int| 0 <= i < a.len() ==> a[i] != LoopAction::ManualGather && a[i] != LoopAction::GatherTick
}

proof fn lemma_rest_needs_world(s: LoopState, a: Seq<LoopAction>)
    requires
        starts_no_gather(a),
        !(s.hooked && s.world_found),
    ensures
        starts_no_gather(rest_spec(s, a).1),
        rest_spec(s, a).0.hooked == s.hooked && rest_spec(s, a).0.world_found == s.world_found,
{
    let p = s.polled;
    let report = s.hooked && !s.hook_reported && p.game_thread;
    let a1 = if report { a.push(LoopAction::LogHook) } else { a };
    assert(starts_no_gather(a1));
    let a2 = if p.toggle { a1.push(LoopAction::ToggleGatherer).push(LoopAction::Beep) } else { a1 };
    assert(starts_no_gather(a2));
    let a3 = if p.record {
        a2.push(LoopAction::Beep).push(if s.recorder { LoopAction::ToggleRecording } else { LoopAction::LogNoRecorder })
    } else {
        a2
    };
    assert(starts_no_gather(a3));
    let g = if !s.hooked {
        LoopAction::LogNoSweepHook
    } else if s.world_found {
        LoopAction::ManualGather
    } else {
        LoopAction::LogNoWorldForGather
    };
    assert(g != LoopAction::ManualGather);
    let a4 = if p.gather { a3.push(LoopAction::Beep).push(g) } else { a3 };
    assert(starts_no_gather(a4));
    let a5 = a4.push(LoopAction::SaveYieldsIfDirty);
    assert(starts_no_gather(a5));
    let census = p.scan && s.world_found && s.cfg.debug && !s.census_done;
    let a6 = if p.scan {
        let b = a5.push(LoopAction::Beep);
        if s.world_found {
            let b = if census { b.push(LoopAction::Census) } else { b };
            b.push(LoopAction::Survey)
        } else {
            b.push(LoopAction::LogNoWorldForScan)
        }
    } else {
        a5
    };
    assert(starts_no_gather(a6));
    assert(starts_no_gather(a6.push(LoopAction::Sleep(TICK_MS))));
    assert(rest_spec(s, a).1 == a6.push(LoopAction::Sleep(TICK_MS)));
}

/// The loop starts a gather, by hand or on a tick, only with the sweep hook
/// in and the world found; and only a look for the world changes whether it
/// is found, nothing changes whether the hook is in.
pub proof fn lemma_gather_needs_world(s: LoopState, ev: LoopEvent)
    ensures
        ({
            let r = step_spec(s, ev);
            &&& !(r.0.hooked && r.0.world_found) ==> starts_no_gather(r.1)
            &&& r.0.hooked == s.hooked
            &&& !(ev is World) ==> r.0.world_found == s.world_found
        }),
{
    let r = step_spec(s, ev);
    match ev {
        LoopEvent::Tick { now } => {},
        LoopEvent::IniStat { mtime } => {},
        LoopEvent::IniRead { text } => {
            match text {
                None => {},
                Some(t) => {
                    if t.cfg != s.cfg || t.ranges_changed {
                        let a = seq![
                            LoopAction::LogWarnings,
                            LoopAction::LogReload,
                            LoopAction::SetLogReceived(t.cfg.enabled && t.cfg.log_received),
                            LoopAction::ApplyGatherer
                        ];
                        let a1 = rebuilds(s.cfg, t.cfg, a);
                        let a2 = if s.cfg.enabled != t.cfg.enabled { a1.push(LoopAction::LogEnabled(t.cfg.enabled)) } else { a1 };
                        assert(starts_no_gather(a));
                        let b1 = if s.cfg.key_toggle != t.cfg.key_toggle { a.push(LoopAction::RebuildKey(KeyRole::Toggle)) } else { a };
                        let b2 = if s.cfg.key_scan != t.cfg.key_scan { b1.push(LoopAction::RebuildKey(KeyRole::Scan)) } else { b1 };
                        let b3 = if s.cfg.key_gather != t.cfg.key_gather { b2.push(LoopAction::RebuildKey(KeyRole::Gather)) } else { b2 };
                        assert(starts_no_gather(b1));
                        assert(starts_no_gather(b2));
                        assert(starts_no_gather(b3));
                        assert(starts_no_gather(a1));
                        assert(starts_no_gather(a2));
                        assert(starts_no_gather(a2.push(LoopAction::PollKeys)));
                    }
                },
            }
        },
        LoopEvent::Keys { polled, now } => {
            if s.cfg.enabled {
                let s1 = LoopState { polled, ..s };
                if !(!s.world_found && now >= s.next_world_try) {
                    if !(s1.world_found && s1.api_ok && !s1.descriptor_ok) && !(s1.hooked && s1.world_found) {
                        assert(starts_no_gather(Seq::<LoopAction>::empty()));
                        lemma_rest_needs_world(s1, seq![]);
                    }
                }
            }
        },
        LoopEvent::World { found, now } => {
            let s1 = LoopState {
                world_found: found,
                next_world_try: if found { s.next_world_try } else { later_spec(now, RETRY_MS) },
                ..s
            };
            if !(s1.world_found && s1.api_ok && !s1.descriptor_ok) && !(s1.hooked && s1.world_found) {
                assert(starts_no_gather(Seq::<LoopAction>::empty()));
                lemma_rest_needs_world(s1, seq![]);
            }
        },
        LoopEvent::Descriptor { ok, now } => {
            if !(s.hooked && s.world_found) {
                assert(starts_no_gather(Seq::<LoopAction>::empty()));
                assert(starts_no_gather(seq![LoopAction::Sleep(RETRY_MS)]));
                match ok {
                    None => lemma_rest_needs_world(s, seq![]),
                    Some(true) => lemma_rest_needs_world(LoopState { descriptor_ok: true, ..s }, seq![]),
                    Some(false) => lemma_rest_needs_world(
                        LoopState { descriptor_ok: false, next_world_try: later_spec(now, RETRY_MS), ..s },
                        seq![LoopAction::Sleep(RETRY_MS)],
                    ),
                }
            }
        },
    }
}

/// The loop's decision on one event: the state after it and what the caller
/// is to do, in order. A reload is applied exactly when the ini says
/// something other than what runs; a hotkey is rebuilt exactly when its
/// binding moved; while disabled a poll of the keys only sleeps.
pub fn loop_step(s: &LoopState, ev: LoopEvent) -> (r: (LoopState, Vec<LoopAction>))
    ensures
        (r.0, r.1@) == step_spec(*s, ev),
        ev matches LoopEvent::IniRead { text: Some(t) } ==> {
            &&& r.0.cfg == t.cfg
            &&& r.0.ini_seen == Some(t.mtime)
            &&& (r.1@.len() > 1 && r.1[1] == LoopAction::LogReload) == (t.cfg != s.cfg || t.ranges_changed)
            &&& forall|k: KeyRole| #[trigger] r.1@.contains(LoopAction::RebuildKey(k)) == (binding(s.cfg, k) != binding(t.cfg, k))
        },
        (ev is Keys && !s.cfg.enabled) ==> (r.0 == *s && r.1@ == seq![LoopAction::Sleep(TICK_MS)]),
        ev matches LoopEvent::World { found: false, now } ==> r.0.next_world_try == later_spec(now, RETRY_MS),
        ev matches LoopEvent::Descriptor { ok: Some(false), now } ==> r.0.next_world_try == later_spec(now, RETRY_MS)
            && r.1[0] == LoopAction::Sleep(RETRY_MS),
        !(r.0.hooked && r.0.world_found) ==> starts_no_gather(r.1@),
        r.0.hooked == s.hooked,
{
    proof {
        lemma_step_facts(*s, ev);
        lemma_gather_needs_world(*s, ev);
    }
    match ev {
        LoopEvent::Tick { now } => {
            if now >= s.next_ini_poll {
                (LoopState { next_ini_poll: later(now, INI_POLL_MS), ..*s }, vec![LoopAction::StatIni])
            } else {
                (*s, vec![LoopAction::PollKeys])
            }
        },
        LoopEvent::IniStat { mtime } => on_ini_stat(s, mtime),
        LoopEvent::IniRead { text } => on_ini_read(s, text),
        LoopEvent::Keys { polled, now } => on_keys(s, polled, now),
        LoopEvent::World { found, now } => {
            let next = if found { s.next_world_try } else { later(now, RETRY_MS) };
            let s1 = LoopState { world_found: found, next_world_try: next, ..*s };
            after_world(s1)
        },
        LoopEvent::Descriptor { ok, now } => on_descriptor(s, ok, now),
    }
}

} // verus!
