//! What a re-apply pass of the gatherer hook did, in the words its caller
//! logs, and the running counters the hook keeps.

use vstd::prelude::*;
use vstd::utf8::*;

use crate::strings::{dec_spec, lemma_ascii_encode, lemma_dec_ascii, lit, push_dec, push_str, utf8_string};
use crate::gatherer::config::{mult_of, Config, Family};

verus! {

/// What one re-apply pass did.
#[derive(Debug, Clone, Copy, PartialEq, Eq, Structural)]
pub struct Outcome {
    /// False when the hook has never fired, so nothing is loaded yet.
    pub manager_known: bool,
    /// True when the manager itself would not read.
    pub manager_unreadable: bool,
    /// Remembered records walked.
    pub visited: usize,
    /// Records at least one scalar was written for.
    pub rewritten: usize,
    /// Records already carrying exactly the wanted numbers.
    pub unchanged: usize,
    /// Records nothing was attempted on; the sum of the reasons below.
    pub skipped: usize,
    /// `u64` yields written.
    pub scalars: usize,
    /// Blocks skipped inside records that were otherwise fine.
    pub blocks_skipped: usize,
    pub skip_index: usize,
    pub skip_unloaded: usize,
    pub skip_key: usize,
    pub skip_count: usize,
    pub skip_list: usize,
    pub skip_read: usize,
    pub block_null: usize,
    pub block_item: usize,
    pub block_read: usize,
    pub block_write: usize,
}

/// `82 records rewritten, 193 unchanged, 0 skipped; 644 scalars written`.
pub open spec fn summary_spec(o: Outcome) -> Seq<u8> {
    dec_spec(o.rewritten as nat) + lit(" records rewritten, ") + dec_spec(o.unchanged as nat) + lit(
        " unchanged, ",
    ) + dec_spec(o.skipped as nat) + lit(" skipped; ") + dec_spec(o.scalars as nat) + lit(
        " scalars written",
    )
}

/// One reason appended to the list: `what n`, comma-separated, and nothing
/// at all for a count of zero.
pub open spec fn add_reason(acc: Seq<u8>, n: usize, what: Seq<u8>) -> Seq<u8> {
    if n == 0 {
        acc
    } else {
        (if acc.len() == 0 { acc } else { acc + lit(", ") }) + what + lit(" ") + dec_spec(n as nat)
    }
}

pub open spec fn reasons_spec(o: Outcome) -> Seq<u8> {
    let a = add_reason(seq![], o.skip_index, lit("index past the record count"));
    let a = add_reason(a, o.skip_unloaded, lit("not loaded"));
    let a = add_reason(a, o.skip_key, lit("key mismatch"));
    let a = add_reason(a, o.skip_count, lit("block count mismatch"));
    let a = add_reason(a, o.skip_list, lit("no output list"));
    let a = add_reason(a, o.skip_read, lit("unreadable record"));
    let a = add_reason(a, o.block_null, lit("null block"));
    let a = add_reason(a, o.block_item, lit("item mismatch"));
    let a = add_reason(a, o.block_read, lit("unreadable block"));
    add_reason(a, o.block_write, lit("write refused"))
}

pub open spec fn warning_spec(o: Outcome) -> Option<Seq<u8>> {
    if o.manager_unreadable {
        Some(lit("the record manager is unreadable; nothing was re-applied"))
    } else if o.skipped == 0 && o.blocks_skipped == 0 {
        None
    } else {
        Some(dec_spec(o.skipped as nat) + lit(" of ") + dec_spec(o.visited as nat) + lit(
            " records and ",
        ) + dec_spec(o.blocks_skipped as nat) + lit(" blocks skipped (") + reasons_spec(o) + lit(
            "); the parsed record layout may have moved in this game build",
        ))
    }
}

proof fn lemma_lit_valid(s: &str)
    ensures
        valid_utf8(lit(s)),
{
    encode_utf8_valid_utf8(s@);
}

proof fn lemma_dec_valid(n: nat)
    ensures
        valid_utf8(dec_spec(n)),
{
    lemma_dec_ascii(n);
    lemma_ascii_encode(dec_spec(n));
}

fn push_reason(out: &mut Vec<u8>, n: usize, what: &str)
    requires
        valid_utf8(old(out)@),
    ensures
        final(out)@ == add_reason(old(out)@, n, lit(what)),
        valid_utf8(final(out)@),
{
    if n == 0 {
        return;
    }
    let ghost before = out@;
    if out.len() > 0 {
        push_str(out, ", ");
    }
    let ghost mid = out@;
    push_str(out, what);
    push_str(out, " ");
    push_dec(out, n as u64);
    proof {
        lemma_lit_valid(", ");
        lemma_lit_valid(what);
        lemma_lit_valid(" ");
        lemma_dec_valid(n as nat);
        if before.len() > 0 {
            valid_utf8_concat(before, lit(", "));
        }
        valid_utf8_concat(mid, lit(what));
        valid_utf8_concat(mid + lit(what), lit(" "));
        valid_utf8_concat(mid + lit(what) + lit(" "), dec_spec(n as nat));
        assert(out@ =~= mid + lit(what) + lit(" ") + dec_spec(n as nat));
    }
}

impl Outcome {
    /// The hook has never fired: no manager, nothing loaded, nothing to say.
    pub fn not_loaded() -> (r: Outcome)
        ensures
            !r.manager_known && !r.manager_unreadable,
            r.visited == 0 && r.rewritten == 0 && r.unchanged == 0 && r.skipped == 0 && r.scalars
                == 0 && r.blocks_skipped == 0,
            r.skip_index == 0 && r.skip_unloaded == 0 && r.skip_key == 0 && r.skip_count == 0
                && r.skip_list == 0 && r.skip_read == 0,
            r.block_null == 0 && r.block_item == 0 && r.block_read == 0 && r.block_write == 0,
    {
        Outcome {
            manager_known: false,
            manager_unreadable: false,
            visited: 0,
            rewritten: 0,
            unchanged: 0,
            skipped: 0,
            scalars: 0,
            blocks_skipped: 0,
            skip_index: 0,
            skip_unloaded: 0,
            skip_key: 0,
            skip_count: 0,
            skip_list: 0,
            skip_read: 0,
            block_null: 0,
            block_item: 0,
            block_read: 0,
            block_write: 0,
        }
    }

    /// `"82 records rewritten, 193 unchanged, 0 skipped; 644 scalars written"`.
    pub fn summary(&self) -> (r: String)
        ensures
            encode_utf8(r@) == summary_spec(*self),
    {
        let mut out: Vec<u8> = Vec::new();
        push_dec(&mut out, self.rewritten as u64);
        push_str(&mut out, " records rewritten, ");
        push_dec(&mut out, self.unchanged as u64);
        push_str(&mut out, " unchanged, ");
        push_dec(&mut out, self.skipped as u64);
        push_str(&mut out, " skipped; ");
        push_dec(&mut out, self.scalars as u64);
        push_str(&mut out, " scalars written");
        proof {
            let a = dec_spec(self.rewritten as nat);
            let b = lit(" records rewritten, ");
            let c = dec_spec(self.unchanged as nat);
            let d = lit(" unchanged, ");
            let e = dec_spec(self.skipped as nat);
            let f = lit(" skipped; ");
            let g = dec_spec(self.scalars as nat);
            let h = lit(" scalars written");
            lemma_dec_valid(self.rewritten as nat);
            lemma_dec_valid(self.unchanged as nat);
            lemma_dec_valid(self.skipped as nat);
            lemma_dec_valid(self.scalars as nat);
            lemma_lit_valid(" records rewritten, ");
            lemma_lit_valid(" unchanged, ");
            lemma_lit_valid(" skipped; ");
            lemma_lit_valid(" scalars written");
            valid_utf8_concat(a, b);
            valid_utf8_concat(a + b, c);
            valid_utf8_concat(a + b + c, d);
            valid_utf8_concat(a + b + c + d, e);
            valid_utf8_concat(a + b + c + d + e, f);
            valid_utf8_concat(a + b + c + d + e + f, g);
            valid_utf8_concat(a + b + c + d + e + f + g, h);
            assert(out@ =~= a + b + c + d + e + f + g + h);
        }
        utf8_string(out)
    }

    /// The reasons anything was skipped, or `None` when nothing was: the line
    /// that says a game update moved the parsed layout.
    pub fn warning(&self) -> (r: Option<String>)
        ensures
            r is None <==> warning_spec(*self) is None,
            r matches Some(s) ==> warning_spec(*self) == Some(encode_utf8(s@)),
    {
        if self.manager_unreadable {
            let mut out: Vec<u8> = Vec::new();
            push_str(&mut out, "the record manager is unreadable; nothing was re-applied");
            proof {
                lemma_lit_valid("the record manager is unreadable; nothing was re-applied");
                assert(out@ =~= lit("the record manager is unreadable; nothing was re-applied"));
            }
            return Some(utf8_string(out));
        }
        if self.skipped == 0 && self.blocks_skipped == 0 {
            return None;
        }
        let mut why: Vec<u8> = Vec::new();
        proof {
            lemma_ascii_encode(seq![]);
        }
        push_reason(&mut why, self.skip_index, "index past the record count");
        push_reason(&mut why, self.skip_unloaded, "not loaded");
        push_reason(&mut why, self.skip_key, "key mismatch");
        push_reason(&mut why, self.skip_count, "block count mismatch");
        push_reason(&mut why, self.skip_list, "no output list");
        push_reason(&mut why, self.skip_read, "unreadable record");
        push_reason(&mut why, self.block_null, "null block");
        push_reason(&mut why, self.block_item, "item mismatch");
        push_reason(&mut why, self.block_read, "unreadable block");
        push_reason(&mut why, self.block_write, "write refused");
        let mut out: Vec<u8> = Vec::new();
        push_dec(&mut out, self.skipped as u64);
        push_str(&mut out, " of ");
        push_dec(&mut out, self.visited as u64);
        push_str(&mut out, " records and ");
        push_dec(&mut out, self.blocks_skipped as u64);
        push_str(&mut out, " blocks skipped (");
        crate::text::push_all(&mut out, why.as_slice());
        push_str(&mut out, "); the parsed record layout may have moved in this game build");
        proof {
            let a = dec_spec(self.skipped as nat);
            let b = lit(" of ");
            let c = dec_spec(self.visited as nat);
            let d = lit(" records and ");
            let e = dec_spec(self.blocks_skipped as nat);
            let f = lit(" blocks skipped (");
            let g = why@;
            let h = lit("); the parsed record layout may have moved in this game build");
            lemma_dec_valid(self.skipped as nat);
            lemma_dec_valid(self.visited as nat);
            lemma_dec_valid(self.blocks_skipped as nat);
            lemma_lit_valid(" of ");
            lemma_lit_valid(" records and ");
            lemma_lit_valid(" blocks skipped (");
            lemma_lit_valid("); the parsed record layout may have moved in this game build");
            valid_utf8_concat(a, b);
            valid_utf8_concat(a + b, c);
            valid_utf8_concat(a + b + c, d);
            valid_utf8_concat(a + b + c + d, e);
            valid_utf8_concat(a + b + c + d + e, f);
            valid_utf8_concat(a + b + c + d + e + f, g);
            valid_utf8_concat(a + b + c + d + e + f + g, h);
            assert(out@ =~= a + b + c + d + e + f + g + h);
        }
        Some(utf8_string(out))
    }
}

/// Records seen, records patched and scalars written, as the hook counts
/// them.
pub struct Counters {
    records_seen: u64,
    records_patched: u64,
    edits_written: u64,
}

impl Counters {
    pub closed spec fn view_counts(&self) -> (u64, u64, u64) {
        (self.records_seen, self.records_patched, self.edits_written)
    }

    pub fn new() -> (r: Counters)
        ensures
            r.view_counts() == (0u64, 0u64, 0u64),
    {
        Counters { records_seen: 0, records_patched: 0, edits_written: 0 }
    }

    /// One record entered the hook.
    pub fn saw_record(&mut self)
        ensures
            final(self).view_counts() == (old(self).view_counts().0.wrapping_add(1), old(
                self,
            ).view_counts().1, old(self).view_counts().2),
    {
        self.records_seen = self.records_seen.wrapping_add(1);
    }

    /// One gather record patched, with `edits` scalars written.
    pub fn patched(&mut self, edits: u64)
        ensures
            final(self).view_counts() == (old(self).view_counts().0, old(
                self,
            ).view_counts().1.wrapping_add(1), old(self).view_counts().2.wrapping_add(edits)),
    {
        self.records_patched = self.records_patched.wrapping_add(1);
        self.edits_written = self.edits_written.wrapping_add(edits);
    }

    /// `edits` scalars written by a re-apply pass.
    pub fn add_edits(&mut self, edits: u64)
        ensures
            final(self).view_counts() == (old(self).view_counts().0, old(self).view_counts().1, old(
                self,
            ).view_counts().2.wrapping_add(edits)),
    {
        self.edits_written = self.edits_written.wrapping_add(edits);
    }

    /// `(records seen, gather records patched, scalars written)`.
    pub fn counters(&self) -> (r: (u64, u64, u64))
        ensures
            r == self.view_counts(),
    {
        (self.records_seen, self.records_patched, self.edits_written)
    }
}

} // verus!

verus! {

/// Keys the hook can warn about for a name mismatch.
pub const WARN_SLOTS: usize = 256;

/// The probe for `key` from step `i` on: the first slot along it that is
/// free, or that already holds `key` (`true`); `None` when every slot holds
/// another key.
pub open spec fn warn_probe(s: Seq<u32>, key: u32, i: int) -> Option<(int, bool)>
    decreases WARN_SLOTS - i,
{
    if i < 0 || i >= WARN_SLOTS {
        None
    } else {
        let p = (key as int % WARN_SLOTS as int + i) % WARN_SLOTS as int;
        if s[p] == 0 {
            Some((p, false))
        } else if s[p] == key {
            Some((p, true))
        } else {
            warn_probe(s, key, i + 1)
        }
    }
}

/// Whether to warn about `key` now, and the slots after: the first time a
/// key is passed it claims a slot and is warned about; a key already held,
/// key 0, or a full table is not.
pub open spec fn first_warning_spec(s: Seq<u32>, key: u32) -> (bool, Seq<u32>) {
    if key == 0 {
        (false, s)
    } else {
        match warn_probe(s, key, 0) {
            Some((p, false)) => (true, s.update(p, key)),
            _ => (false, s),
        }
    }
}

/// The keys already warned about for a name mismatch: an open-addressed
/// table probed linearly from `key % WARN_SLOTS`, 0 marking a free slot.
/// A full table stops reporting rather than growing.
pub struct NameWarnings {
    slots: Vec<u32>,
}

impl View for NameWarnings {
    type V = Seq<u32>;

    closed spec fn view(&self) -> Seq<u32> {
        self.slots@
    }
}

impl NameWarnings {
    pub fn new() -> (r: NameWarnings)
        ensures
            r@ == Seq::new(WARN_SLOTS as nat, |i: int| 0u32),
    {
        let mut slots: Vec<u32> = Vec::new();
        let mut i: usize = 0;
        while i < WARN_SLOTS
            invariant
                0 <= i <= WARN_SLOTS,
                slots@ == Seq::new(i as nat, |j: int| 0u32),
            decreases WARN_SLOTS - i,
        {
            slots.push(0);
            i = i + 1;
            assert(slots@ =~= Seq::new(i as nat, |j: int| 0u32));
        }
        NameWarnings { slots }
    }

    /// True the first time this key is passed.
    pub fn first_warning_for(&mut self, key: u32) -> (r: bool)
        requires
            old(self)@.len() == WARN_SLOTS,
        ensures
            (r, final(self)@) == first_warning_spec(old(self)@, key),
            final(self)@.len() == WARN_SLOTS,
    {
        if key == 0 {
            return false;
        }
        let start = (key as usize) % WARN_SLOTS;
        let mut i: usize = 0;
        while i < WARN_SLOTS
            invariant
                0 <= i <= WARN_SLOTS,
                self@.len() == WARN_SLOTS,
                self@ == old(self)@,
                start == key as int % WARN_SLOTS as int,
                key != 0,
                warn_probe(self@, key, 0) == warn_probe(self@, key, i as int),
            decreases WARN_SLOTS - i,
        {
            let p = (start + i) % WARN_SLOTS;
            let v = self.slots[p];
            if v == 0 {
                self.slots.set(p, key);
                return true;
            }
            if v == key {
                return false;
            }
            i = i + 1;
        }
        false
    }
}

proof fn lemma_probe_range(s: Seq<u32>, key: u32, i: int)
    ensures
        warn_probe(s, key, i) matches Some((p, _)) ==> 0 <= p < WARN_SLOTS,
    decreases WARN_SLOTS - i,
{
    if 0 <= i < WARN_SLOTS {
        lemma_probe_range(s, key, i + 1);
    }
}

proof fn lemma_probe_claimed(s: Seq<u32>, key: u32, i: int, p: int)
    requires
        s.len() == WARN_SLOTS,
        0 <= p < WARN_SLOTS,
        key != 0,
        0 <= i,
        warn_probe(s, key, i) == Some((p, false)),
    ensures
        warn_probe(s.update(p, key), key, i) == Some((p, true)),
    decreases WARN_SLOTS - i,
{
    let q = (key as int % WARN_SLOTS as int + i) % WARN_SLOTS as int;
    assert(0 <= q < WARN_SLOTS);
    let t = s.update(p, key);
    if q != p {
        assert(s[q] != 0 && s[q] != key);
        lemma_probe_claimed(s, key, i + 1, p);
        assert(t[q] == s[q]);
    } else {
        assert(t[q] == key);
    }
}

/// A key is warned about at most once: right after the warning for it, a
/// second one is refused and the slots stay as they are.
pub proof fn lemma_warned_once(s: Seq<u32>, key: u32)
    requires
        s.len() == WARN_SLOTS,
        first_warning_spec(s, key).0,
    ensures
        first_warning_spec(first_warning_spec(s, key).1, key) == (false, first_warning_spec(s, key).1),
{
    match warn_probe(s, key, 0) {
        Some((p, false)) => {
            lemma_probe_range(s, key, 0);
            lemma_probe_claimed(s, key, 0, p);
        },
        _ => {},
    }
}

/// What a loaded record gets: nothing when it is no gather record; else its
/// vanilla output blocks are remembered, and the multiplied bounds are
/// written, or only reported in a dry run, when the subsystem is on, the
/// family's multiplier is above 1 and the record has output lists to scale.
#[derive(Debug, Clone, Copy, PartialEq, Eq, Structural)]
pub enum LoadAction {
    NotGather,
    Remember,
    Write(u32),
    DryRun(u32),
}

pub open spec fn load_action_spec(family: Option<Family>, cfg: Config, edits_empty: bool) -> LoadAction {
    match family {
        None => LoadAction::NotGather,
        Some(f) => if !cfg.enabled || mult_of(cfg, f) <= 1 || edits_empty {
            LoadAction::Remember
        } else if cfg.dry_run {
            LoadAction::DryRun(mult_of(cfg, f))
        } else {
            LoadAction::Write(mult_of(cfg, f))
        },
    }
}

/// The record loader's decision, from the record's family, the live
/// settings and whether scaling the record found any output list to edit:
/// the remembering happens for every gather record, before any switch is
/// consulted, and a write only when enabled, multiplied, with edits, and not
/// a dry run.
pub fn load_action(family: Option<Family>, cfg: &Config, edits_empty: bool) -> (r: LoadAction)
    ensures
        r == load_action_spec(family, *cfg, edits_empty),
        (r != LoadAction::NotGather) == (family is Some),
        (r is Write) == (family is Some && cfg.enabled && mult_of(*cfg, family->0) > 1 && !edits_empty && !cfg.dry_run),
        (r is DryRun) == (family is Some && cfg.enabled && mult_of(*cfg, family->0) > 1 && !edits_empty && cfg.dry_run),
        r is Write ==> r->Write_0 == mult_of(*cfg, family->0),
        r is DryRun ==> r->DryRun_0 == mult_of(*cfg, family->0),
{
    match family {
        None => LoadAction::NotGather,
        Some(f) => {
            let m = cfg.multiplier(f);
            if !cfg.enabled || m <= 1 || edits_empty {
                LoadAction::Remember
            } else if cfg.dry_run {
                LoadAction::DryRun(m)
            } else {
                LoadAction::Write(m)
            }
        },
    }
}

} // verus!
