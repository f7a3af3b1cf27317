//! The event recorder: its cap policy, two numbers and the pure decision
//! they drive, and the recording session that tallies every event against
//! it and hands over a census when it ends.

use vstd::prelude::*;
use vstd::string::StringSliceAdditionalSpecFns;
use vstd::utf8::{encode_utf8, valid_utf8};

use crate::strings::{all_ascii, dec_spec, lemma_dec_ascii, lit, push_dec, push_str};

verus! {

/// Global cap on logged lines.
pub const RECORD_CAP: u32 = 300;

/// Per-descriptor cap on logged lines, so that a rare descriptor cannot be
/// crowded out of the global cap by a common one.
pub const RECORD_PER_DESC: u32 = 25;

/// What to do with one observed event.
#[derive(Debug, Clone, Copy, PartialEq, Eq, Structural)]
pub struct RecordAction {
    /// Log a line for it.
    pub log: bool,
    /// This event is the one that fills the global cap: print the cap message
    /// and the census, and switch recording off.
    pub stop: bool,
}

/// The policy as a formula over the two counters.
pub open spec fn action_spec(desc_logged: nat, total_logged: nat) -> RecordAction {
    let log = total_logged < RECORD_CAP && desc_logged < RECORD_PER_DESC;
    RecordAction { log, stop: log && total_logged + 1 >= RECORD_CAP }
}

/// The whole cap policy, as a function of the counters: `desc_logged` is how
/// many lines this descriptor has already had, `total_logged` how many lines
/// have been logged in all, both before this event.
pub fn record_action(desc_logged: u32, total_logged: u32) -> (r: RecordAction)
    ensures
        r == action_spec(desc_logged as nat, total_logged as nat),
{
    if total_logged >= RECORD_CAP || desc_logged >= RECORD_PER_DESC {
        return RecordAction { log: false, stop: false };
    }
    RecordAction { log: true, stop: total_logged + 1 >= RECORD_CAP }
}

/// The counters after replaying `stream` (descriptor indices below `keys`)
/// through the policy the way the recorder keeps them: per-descriptor logged
/// counts, the total logged, and whether recording was switched off.
pub open spec fn replay(keys: nat, stream: Seq<nat>) -> (Seq<nat>, nat, bool)
    decreases stream.len(),
{
    if stream.len() == 0 {
        (Seq::new(keys, |i: int| 0nat), 0, false)
    } else {
        let (logged, total, stopped) = replay(keys, stream.drop_last());
        let k = stream.last() as int;
        if stopped || k >= keys {
            (logged, total, stopped)
        } else {
            let a = action_spec(logged[k], total);
            if a.log {
                (logged.update(k, logged[k] + 1), total + 1, a.stop)
            } else {
                (logged, total, a.stop)
            }
        }
    }
}

/// Over any stream of events, no descriptor is logged more than its share,
/// the total never exceeds the global cap, and recording stops only once the
/// global cap is full.
pub proof fn lemma_replay_caps(keys: nat, stream: Seq<nat>)
    ensures
        replay(keys, stream).0.len() == keys,
        forall|k: int| 0 <= k < keys ==> #[trigger] replay(keys, stream).0[k] <= RECORD_PER_DESC,
        replay(keys, stream).1 <= RECORD_CAP,
        replay(keys, stream).2 ==> replay(keys, stream).1 == RECORD_CAP,
    decreases stream.len(),
{
    if stream.len() > 0 {
        lemma_replay_caps(keys, stream.drop_last());
    }
}

// ---------------------------------------------------------------------------
// The recording session
// ---------------------------------------------------------------------------

/// One descriptor's tally: every event seen for it, and the lines logged.
pub struct DescTally {
    pub desc: usize,
    pub name: String,
    pub observed: u32,
    pub logged: u32,
}

pub struct TallyView {
    pub desc: usize,
    pub name: Seq<u8>,
    pub observed: u32,
    pub logged: u32,
}

impl View for DescTally {
    type V = TallyView;

    open spec fn view(&self) -> TallyView {
        TallyView { desc: self.desc, name: encode_utf8(self.name@), observed: self.observed, logged: self.logged }
    }
}

/// A recording session: whether it is on, the lines logged since it began,
/// and a row per descriptor seen.
pub struct Recorder {
    recording: bool,
    recorded: u32,
    seen: Vec<DescTally>,
}

pub struct RecorderView {
    pub recording: bool,
    pub recorded: u32,
    pub rows: Seq<TallyView>,
}

impl View for Recorder {
    type V = RecorderView;

    closed spec fn view(&self) -> RecorderView {
        RecorderView {
            recording: self.recording,
            recorded: self.recorded,
            rows: self.seen@.map_values(|t: DescTally| t@),
        }
    }
}

/// The lines the rows logged, in all.
pub open spec fn sum_logged(rows: Seq<TallyView>) -> nat
    decreases rows.len(),
{
    if rows.len() == 0 {
        0
    } else {
        sum_logged(rows.drop_last()) + rows.last().logged as nat
    }
}

/// The row of `desc`, if it has one.
pub open spec fn row_of(rows: Seq<TallyView>, desc: usize) -> Option<int>
    decreases rows.len(),
{
    if rows.len() == 0 {
        None
    } else if rows.last().desc == desc {
        Some(rows.len() - 1)
    } else {
        row_of(rows.drop_last(), desc)
    }
}

/// What every session keeps: one row per descriptor, no descriptor past its
/// share, nothing logged that was not observed, the total within the global
/// cap and equal to what the rows logged.
pub open spec fn session_wf(v: RecorderView) -> bool {
    &&& forall|i: int, j: int| 0 <= i < j < v.rows.len() ==> (#[trigger] v.rows[i]).desc != (#[trigger] v.rows[j]).desc
    &&& forall|i: int|
        0 <= i < v.rows.len() ==> (#[trigger] v.rows[i]).logged <= RECORD_PER_DESC && v.rows[i].logged
            <= v.rows[i].observed
    &&& v.recorded <= RECORD_CAP
    &&& v.recorded == sum_logged(v.rows)
}

pub open spec fn sat_inc(x: u32) -> u32 {
    if x < u32::MAX {
        (x + 1) as u32
    } else {
        x
    }
}

/// The result of tallying one event.
pub struct Tallied {
    /// This event filled the global cap: print the census and stop.
    pub stop: bool,
    /// The 0-based index of this line among the lines logged this session.
    pub n: u32,
    /// The descriptor's name when the line is to be logged.
    pub name: Option<String>,
}

pub struct TalliedView {
    pub stop: bool,
    pub n: u32,
    pub name: Option<Seq<u8>>,
}

impl View for Tallied {
    type V = TalliedView;

    open spec fn view(&self) -> TalliedView {
        TalliedView {
            stop: self.stop,
            n: self.n,
            name: match self.name {
                Some(s) => Some(encode_utf8(s@)),
                None => None,
            },
        }
    }
}

/// The rows once `desc` has one: a fresh row named `name` is added when it
/// had none.
pub open spec fn rows_with(rows: Seq<TallyView>, desc: usize, name: Seq<u8>) -> Seq<TallyView> {
    if row_of(rows, desc) is Some {
        rows
    } else {
        rows.push(TallyView { desc, name, observed: 0, logged: 0 })
    }
}

/// The session after tallying one event of `desc` (whose row, given a name
/// when it is new, is `rows_with`), and what the tally says.
pub open spec fn tally_spec(v: RecorderView, desc: usize, name: Seq<u8>) -> (RecorderView, TalliedView) {
    let rows = rows_with(v.rows, desc, name);
    let i = row_of(rows, desc)->0;
    let t = rows[i];
    let a = action_spec(t.logged as nat, v.recorded as nat);
    let row = TallyView {
        desc: t.desc,
        name: t.name,
        observed: sat_inc(t.observed),
        logged: if a.log {
            (t.logged + 1) as u32
        } else {
            t.logged
        },
    };
    (
        RecorderView {
            recording: v.recording,
            recorded: if a.log {
                (v.recorded + 1) as u32
            } else {
                v.recorded
            },
            rows: rows.update(i, row),
        },
        TalliedView {
            stop: a.stop,
            n: v.recorded,
            name: if a.log {
                Some(t.name)
            } else {
                None
            },
        },
    )
}

/// One census row: name, events observed, lines logged.
pub open spec fn census_rows(rows: Seq<TallyView>) -> Seq<(Seq<u8>, u32, u32)> {
    rows.map_values(|t: TallyView| (t.name, t.observed, t.logged))
}

pub open spec fn census_row_view(r: (String, u32, u32)) -> (Seq<u8>, u32, u32) {
    (encode_utf8(r.0@), r.1, r.2)
}

pub open spec fn census_rows_view(v: Seq<(String, u32, u32)>) -> Seq<(Seq<u8>, u32, u32)> {
    Seq::new(v.len(), |i: int| census_row_view(v[i]))
}

pub open spec fn census_view(c: (u32, Vec<(String, u32, u32)>)) -> (u32, Seq<(Seq<u8>, u32, u32)>) {
    (c.0, census_rows_view(c.1@))
}

proof fn lemma_row_of(rows: Seq<TallyView>, desc: usize)
    ensures
        row_of(rows, desc) matches Some(i) ==> 0 <= i < rows.len() && rows[i].desc == desc,
        row_of(rows, desc) is None ==> forall|j: int| 0 <= j < rows.len() ==> (#[trigger] rows[j]).desc != desc,
    decreases rows.len(),
{
    if rows.len() > 0 {
        lemma_row_of(rows.drop_last(), desc);
        if rows.last().desc != desc {
            assert forall|j: int| 0 <= j < rows.len() - 1 implies rows[j] == rows.drop_last()[j] by {}
        }
    }
}

proof fn lemma_row_of_unique(rows: Seq<TallyView>, desc: usize, i: int)
    requires
        forall|a: int, b: int| 0 <= a < b < rows.len() ==> (#[trigger] rows[a]).desc != (#[trigger] rows[b]).desc,
        0 <= i < rows.len(),
        rows[i].desc == desc,
    ensures
        row_of(rows, desc) == Some(i),
    decreases rows.len(),
{
    if i < rows.len() - 1 {
        assert(rows.last().desc != desc);
        lemma_row_of_unique(rows.drop_last(), desc, i);
    }
}

proof fn lemma_sum_update(rows: Seq<TallyView>, i: int, t: TallyView)
    requires
        0 <= i < rows.len(),
    ensures
        sum_logged(rows.update(i, t)) + rows[i].logged == sum_logged(rows) + t.logged,
    decreases rows.len(),
{
    let u = rows.update(i, t);
    if i == rows.len() - 1 {
        assert(u.drop_last() =~= rows.drop_last());
    } else {
        lemma_sum_update(rows.drop_last(), i, t);
        assert(u.drop_last() =~= rows.drop_last().update(i, t));
    }
}

proof fn lemma_sum_push(rows: Seq<TallyView>, t: TallyView)
    ensures
        sum_logged(rows.push(t)) == sum_logged(rows) + t.logged,
{
    assert(rows.push(t).drop_last() =~= rows);
}

impl Recorder {
    /// No session running, nothing tallied.
    pub fn new() -> (r: Recorder)
        ensures
            r@ == (RecorderView { recording: false, recorded: 0, rows: seq![] }),
            session_wf(r@),
    {
        let r = Recorder { recording: false, recorded: 0, seen: Vec::new() };
        assert(r@.rows =~= Seq::<TallyView>::empty());
        r
    }

    pub fn is_recording(&self) -> (r: bool)
        ensures
            r == self@.recording,
    {
        self.recording
    }

    /// A fresh session: the tallies cleared, then recording on.
    pub fn start_session(&mut self)
        ensures
            final(self)@ == (RecorderView { recording: true, recorded: 0, rows: seq![] }),
            session_wf(final(self)@),
    {
        self.seen = Vec::new();
        self.recorded = 0;
        self.recording = true;
        assert(self@.rows =~= Seq::<TallyView>::empty());
    }

    /// Tally one event of descriptor `desc` and decide, by the cap policy,
    /// whether its line is logged. A descriptor without a row gets one only
    /// when `name` is given; without one nothing changes and `None` says the
    /// name is needed.
    pub fn tally(&mut self, desc: usize, name: Option<String>) -> (r: Option<Tallied>)
        requires
            session_wf(old(self)@),
        ensures
            session_wf(final(self)@),
            row_of(old(self)@.rows, desc) is None && name is None ==> r is None && final(self)@ == old(self)@,
            row_of(old(self)@.rows, desc) is Some || name is Some ==> r is Some && {
                let nm = match name {
                    Some(s) => encode_utf8(s@),
                    None => seq![],
                };
                (final(self)@, r->0@) == tally_spec(old(self)@, desc, nm)
            },
            // The cap fires once: only the event that fills it stops, and
            // nothing is logged past it.
            r matches Some(t) && t.stop ==> final(self)@.recorded == RECORD_CAP,
            old(self)@.recorded == RECORD_CAP ==> final(self)@.recorded == RECORD_CAP && (r matches Some(t)
                ==> !t.stop && t.name is None),
    {
        let ghost v0 = self@;
        let ghost nm = match &name {
            Some(s) => encode_utf8(s@),
            None => Seq::<u8>::empty(),
        };
        proof {
            lemma_row_of(v0.rows, desc);
        }
        let mut i: usize = 0;
        while i < self.seen.len() && self.seen[i].desc != desc
            invariant
                0 <= i <= self.seen.len(),
                self@ == v0,
                forall|j: int| 0 <= j < i ==> (#[trigger] self@.rows[j]).desc != desc,
            decreases self.seen.len() - i,
        {
            i = i + 1;
        }
        let found = i < self.seen.len();
        if !found {
            match name {
                Some(n) => {
                    self.seen.push(DescTally { desc, name: n, observed: 0, logged: 0 });
                    proof {
                        assert(self@.rows =~= v0.rows.push(TallyView { desc, name: nm, observed: 0, logged: 0 }));
                    }
                },
                None => {
                    proof {
                        if let Some(k) = row_of(v0.rows, desc) {
                            assert(v0.rows[k].desc == desc);
                        }
                    }
                    return None;
                },
            }
        }
        let ghost rows = self@.rows;
        proof {
            if found {
                lemma_row_of_unique(v0.rows, desc, i as int);
            } else {
                if let Some(k) = row_of(v0.rows, desc) {
                    assert(v0.rows[k].desc == desc);
                }
            }
            assert(rows == rows_with(v0.rows, desc, nm));
            lemma_row_of_unique(rows, desc, i as int);
            assert(rows[i as int].desc == desc);
            if !found {
                lemma_sum_push(v0.rows, TallyView { desc, name: nm, observed: 0, logged: 0 });
            }
        }
        let total = self.recorded;
        let logged = self.seen[i].logged;
        let observed = self.seen[i].observed;
        let action = record_action(logged, total);
        let new_observed = if observed < u32::MAX {
            observed + 1
        } else {
            observed
        };
        let new_logged = if action.log {
            logged + 1
        } else {
            logged
        };
        let nm_out = if action.log {
            Some(self.seen[i].name.clone())
        } else {
            None
        };
        let d = self.seen[i].desc;
        let old_name = self.seen[i].name.clone();
        self.seen.set(i, DescTally { desc: d, name: old_name, observed: new_observed, logged: new_logged });
        if action.log {
            self.recorded = total + 1;
        }
        proof {
            let t = rows[i as int];
            let row = TallyView { desc: t.desc, name: t.name, observed: sat_inc(t.observed), logged: new_logged };
            assert(self@.rows =~= rows.update(i as int, row));
            lemma_sum_update(rows, i as int, row);
            assert forall|a: int, b: int| 0 <= a < b < self@.rows.len() implies (#[trigger] self@.rows[a]).desc
                != (#[trigger] self@.rows[b]).desc by {
                assert(rows[a].desc != rows[b].desc || a == b);
            }
        }
        Some(Tallied { stop: action.stop, n: total, name: nm_out })
    }

    /// End the session and take its census, or `None` when it was already
    /// over, or when `only_if_capped` and the cap is not full. The census is
    /// handed out once: the session is off afterwards.
    pub fn claim_session_end(&mut self, only_if_capped: bool) -> (r: Option<(u32, Vec<(String, u32, u32)>)>)
        requires
            session_wf(old(self)@),
        ensures
            session_wf(final(self)@),
            (only_if_capped && old(self)@.recorded < RECORD_CAP) || !old(self)@.recording ==> r is None
                && final(self)@ == old(self)@,
            !((only_if_capped && old(self)@.recorded < RECORD_CAP) || !old(self)@.recording) ==> r is Some
                && final(self)@ == (RecorderView { recording: false, ..old(self)@ }) && census_view(r->0) == (
                old(self)@.recorded,
                census_rows(old(self)@.rows),
            ),
            // What the census counts as logged is what its rows logged.
            r matches Some(c) ==> c.0 == sum_logged(old(self)@.rows),
    {
        if only_if_capped && self.recorded < RECORD_CAP {
            return None;
        }
        if !self.recording {
            return None;
        }
        self.recording = false;
        let mut rows: Vec<(String, u32, u32)> = Vec::new();
        let mut i: usize = 0;
        while i < self.seen.len()
            invariant
                0 <= i <= self.seen.len(),
                self@ == (RecorderView { recording: false, ..old(self)@ }),
                rows@.len() == i,
                census_rows_view(rows@) == census_rows(self@.rows).take(i as int),
            decreases self.seen.len() - i,
        {
            let t = &self.seen[i];
            let nm = t.name.clone();
            proof {
                assert(nm@ == t.name@);
            }
            let ghost before = rows@;
            rows.push((nm, t.observed, t.logged));
            proof {
                assert(self@.rows[i as int] == self.seen@[i as int]@);
                assert(census_row_view(rows@[i as int]) == census_rows(self@.rows)[i as int]);
                assert(census_rows_view(rows@) =~= census_rows(self@.rows).take(i + 1));
            }
            i = i + 1;
        }
        proof {
            assert(census_rows(self@.rows).take(self.seen@.len() as int) =~= census_rows(self@.rows));
        }
        Some((self.recorded, rows))
    }

    /// The user's toggle: end whatever session is running, handing over its
    /// census, or start a fresh one. Returns the new state.
    pub fn toggle_recording(&mut self) -> (r: (bool, Option<(u32, Vec<(String, u32, u32)>)>))
        requires
            session_wf(old(self)@),
        ensures
            session_wf(final(self)@),
            old(self)@.recording ==> !r.0 && r.1 is Some && final(self)@ == (RecorderView {
                recording: false,
                ..old(self)@
            }) && census_view(r.1->0) == (old(self)@.recorded, census_rows(old(self)@.rows)),
            !old(self)@.recording ==> r.0 && r.1 is None && final(self)@ == (RecorderView {
                recording: true,
                recorded: 0,
                rows: seq![],
            }),
    {
        match self.claim_session_end(false) {
            Some(c) => (false, Some(c)),
            None => {
                self.start_session();
                (true, None)
            },
        }
    }
}

// ---------------------------------------------------------------------------
// The census, as printed
// ---------------------------------------------------------------------------

pub open spec fn sat_add(a: u32, b: u32) -> u32 {
    if a + b > u32::MAX {
        u32::MAX
    } else {
        (a + b) as u32
    }
}

/// Every event the rows observed, added up without overflowing.
pub open spec fn observed_total(rows: Seq<(Seq<u8>, u32, u32)>) -> u32
    decreases rows.len(),
{
    if rows.len() == 0 {
        0
    } else {
        sat_add(observed_total(rows.drop_last()), rows.last().1)
    }
}

/// `{:5}` of a number: right-aligned in five columns.
pub open spec fn width5(d: Seq<u8>) -> Seq<u8> {
    if d.len() < 5 {
        Seq::new((5 - d.len()) as nat, |i: int| 0x20u8) + d
    } else {
        d
    }
}

/// The census header: why the session ended, the events observed, the lines
/// logged, and how many descriptors were seen.
pub open spec fn census_head(why: Seq<u8>, logged: u32, rows: Seq<(Seq<u8>, u32, u32)>) -> Seq<u8> {
    lit("[record] ") + why + lit(": ") + dec_spec(observed_total(rows) as nat) + lit(" events observed, ")
        + dec_spec(logged as nat) + lit(" logged, ") + dec_spec(rows.len()) + lit(" distinct descriptors")
}

/// One census row: how often the descriptor was seen, and how many of those
/// were logged when that is fewer.
pub open spec fn census_line(row: (Seq<u8>, u32, u32)) -> Seq<u8> {
    lit("[record]   ") + width5(dec_spec(row.1 as nat)) + lit(" x ") + row.0 + if row.1 == row.2 {
        seq![]
    } else {
        lit(" (") + dec_spec(row.2 as nat) + lit(" logged)")
    }
}

pub open spec fn census_lines_spec(why: Seq<u8>, c: (u32, Seq<(Seq<u8>, u32, u32)>)) -> Seq<Seq<u8>> {
    seq![census_head(why, c.0, c.1)] + c.1.map_values(|r: (Seq<u8>, u32, u32)| census_line(r))
}

pub open spec fn lines_view(v: Seq<String>) -> Seq<Seq<u8>> {
    v.map_values(|s: String| encode_utf8(s@))
}

fn push_width5(out: &mut Vec<u8>, n: u32)
    ensures
        final(out)@ == old(out)@ + width5(dec_spec(n as nat)),
{
    let mut d: Vec<u8> = Vec::new();
    push_dec(&mut d, n as u64);
    assert(d@ =~= dec_spec(n as nat));
    if d.len() < 5 {
        let pad = 5 - d.len();
        let mut k: usize = 0;
        while k < pad
            invariant
                0 <= k <= pad,
                pad == 5 - d@.len(),
                out@ == old(out)@ + Seq::new(k as nat, |i: int| 0x20u8),
            decreases pad - k,
        {
            out.push(0x20);
            k = k + 1;
            assert(out@ =~= old(out)@ + Seq::new(k as nat, |i: int| 0x20u8));
        }
    }
    let ghost before = out@;
    crate::text::push_all(out, d.as_slice());
    assert(out@ =~= old(out)@ + width5(dec_spec(n as nat)));
}

proof fn lemma_width5_ascii(d: Seq<u8>)
    requires
        all_ascii(d),
    ensures
        all_ascii(width5(d)),
{
    let w = width5(d);
    if d.len() < 5 {
        let p = Seq::new((5 - d.len()) as nat, |i: int| 0x20u8);
        assert forall|i: int| 0 <= i < w.len() implies #[trigger] w[i] < 128 by {
            if i < p.len() {
                assert(w[i] == p[i]);
            } else {
                assert(w[i] == d[i - p.len()]);
            }
        }
    }
}

/// A line made of text that is already well-formed.
fn finish(v: Vec<u8>) -> (s: String)
    requires
        valid_utf8(v@),
    ensures
        encode_utf8(s@) == v@,
{
    crate::strings::utf8_string(v)
}

proof fn lemma_lit_valid(s: &str)
    ensures
        valid_utf8(lit(s)),
{
    vstd::utf8::encode_utf8_valid_utf8(s@);
}

/// The lines a census prints: the header, then a line per descriptor.
pub fn census_lines(why: &str, census: &(u32, Vec<(String, u32, u32)>)) -> (r: Vec<String>)
    ensures
        lines_view(r@) == census_lines_spec(why.spec_bytes(), census_view(*census)),
{
    let rows = &census.1;
    let ghost cv = census_rows_view(rows@);
    let mut observed: u32 = 0;
    let mut i: usize = 0;
    while i < rows.len()
        invariant
            0 <= i <= rows@.len(),
            cv == census_rows_view(rows@),
            observed == observed_total(cv.take(i as int)),
        decreases rows@.len() - i,
    {
        proof {
            assert(cv.take(i + 1).drop_last() =~= cv.take(i as int));
        }
        let o = rows[i].1;
        observed = if observed as u64 + o as u64 > u32::MAX as u64 {
            u32::MAX
        } else {
            observed + o
        };
        i = i + 1;
    }
    proof {
        assert(cv.take(rows@.len() as int) =~= cv);
    }
    let mut head: Vec<u8> = Vec::new();
    push_str(&mut head, "[record] ");
    push_str(&mut head, why);
    push_str(&mut head, ": ");
    push_dec(&mut head, observed as u64);
    push_str(&mut head, " events observed, ");
    push_dec(&mut head, census.0 as u64);
    push_str(&mut head, " logged, ");
    push_dec(&mut head, rows.len() as u64);
    push_str(&mut head, " distinct descriptors");
    proof {
        reveal_strlit("[record] ");
        reveal_strlit(": ");
        reveal_strlit(" events observed, ");
        reveal_strlit(" logged, ");
        reveal_strlit(" distinct descriptors");
        lemma_dec_ascii(observed as nat);
        lemma_dec_ascii(census.0 as nat);
        lemma_dec_ascii(rows@.len());
        vstd::utf8::encode_utf8_valid_utf8(why@);
        crate::utf8_cuts::lemma_ascii_valid(dec_spec(observed as nat));
        crate::utf8_cuts::lemma_ascii_valid(dec_spec(census.0 as nat));
        crate::utf8_cuts::lemma_ascii_valid(dec_spec(rows@.len()));
        lemma_lit_valid("[record] ");
        lemma_lit_valid(": ");
        lemma_lit_valid(" events observed, ");
        lemma_lit_valid(" logged, ");
        lemma_lit_valid(" distinct descriptors");
        assert(head@ == census_head(why.spec_bytes(), census.0, cv));
        let a = lit("[record] ") + why.spec_bytes();
        vstd::utf8::valid_utf8_concat(lit("[record] "), why.spec_bytes());
        vstd::utf8::valid_utf8_concat(a, lit(": "));
        let b = a + lit(": ");
        vstd::utf8::valid_utf8_concat(b, dec_spec(observed as nat));
        let c = b + dec_spec(observed as nat);
        vstd::utf8::valid_utf8_concat(c, lit(" events observed, "));
        let d = c + lit(" events observed, ");
        vstd::utf8::valid_utf8_concat(d, dec_spec(census.0 as nat));
        let e = d + dec_spec(census.0 as nat);
        vstd::utf8::valid_utf8_concat(e, lit(" logged, "));
        let f = e + lit(" logged, ");
        vstd::utf8::valid_utf8_concat(f, dec_spec(rows@.len()));
        let g = f + dec_spec(rows@.len());
        vstd::utf8::valid_utf8_concat(g, lit(" distinct descriptors"));
    }
    let mut out: Vec<String> = Vec::new();
    out.push(finish(head));
    let mut j: usize = 0;
    while j < rows.len()
        invariant
            0 <= j <= rows@.len(),
            cv == census_rows_view(rows@),
            lines_view(out@) == seq![census_head(why.spec_bytes(), census.0, cv)] + cv.take(j as int).map_values(
                |r: (Seq<u8>, u32, u32)| census_line(r),
            ),
        decreases rows@.len() - j,
    {
        let r = &rows[j];
        let mut line: Vec<u8> = Vec::new();
        push_str(&mut line, "[record]   ");
        push_width5(&mut line, r.1);
        push_str(&mut line, " x ");
        push_str(&mut line, r.0.as_str());
        if r.1 != r.2 {
            push_str(&mut line, " (");
            push_dec(&mut line, r.2 as u64);
            push_str(&mut line, " logged)");
        }
        proof {
            reveal_strlit("[record]   ");
            reveal_strlit(" x ");
            reveal_strlit(" (");
            reveal_strlit(" logged)");
            let row = cv[j as int];
            assert(row == census_row_view(rows@[j as int]));
            lemma_dec_ascii(r.1 as nat);
            lemma_dec_ascii(r.2 as nat);
            lemma_width5_ascii(dec_spec(r.1 as nat));
            lemma_lit_valid("[record]   ");
            lemma_lit_valid(" x ");
            lemma_lit_valid(" (");
            lemma_lit_valid(" logged)");
            crate::utf8_cuts::lemma_ascii_valid(width5(dec_spec(r.1 as nat)));
            crate::utf8_cuts::lemma_ascii_valid(dec_spec(r.2 as nat));
            vstd::utf8::encode_utf8_valid_utf8(r.0@);
            let a = lit("[record]   ") + width5(dec_spec(r.1 as nat));
            vstd::utf8::valid_utf8_concat(lit("[record]   "), width5(dec_spec(r.1 as nat)));
            vstd::utf8::valid_utf8_concat(a, lit(" x "));
            let b = a + lit(" x ");
            vstd::utf8::valid_utf8_concat(b, encode_utf8(r.0@));
            let c = b + encode_utf8(r.0@);
            if r.1 != r.2 {
                let t = lit(" (") + dec_spec(r.2 as nat);
                vstd::utf8::valid_utf8_concat(lit(" ("), dec_spec(r.2 as nat));
                vstd::utf8::valid_utf8_concat(t, lit(" logged)"));
                vstd::utf8::valid_utf8_concat(c, t + lit(" logged)"));
                assert(line@ =~= c + (t + lit(" logged)")));
            } else {
                assert(line@ =~= c + Seq::<u8>::empty());
                assert(c + Seq::<u8>::empty() =~= c);
            }
            assert(line@ == census_line(row));
        }
        let ghost before = out@;
        out.push(finish(line));
        proof {
            assert(cv.take(j + 1).map_values(|r: (Seq<u8>, u32, u32)| census_line(r)) =~= cv.take(
                j as int,
            ).map_values(|r: (Seq<u8>, u32, u32)| census_line(r)).push(census_line(cv[j as int])));
            assert(lines_view(out@) =~= lines_view(before).push(census_line(cv[j as int])));
        }
        j = j + 1;
    }
    proof {
        assert(cv.take(rows@.len() as int) =~= cv);
    }
    out
}

} // verus!
