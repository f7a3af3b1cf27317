//! The vanilla yields of every gather record the loader has handed the hook,
//! kept so a multiplier changed mid-session has something to act on.
//!
//! A fixed open-addressed table: each record is stored under its key in the
//! first free slot probing linearly from `key % MAX_RECORDS`, and found
//! again along the same probe. Key 0 marks a free slot. A record that does
//! not fit is refused, never truncated, and nothing is ever freed.

use vstd::prelude::*;

verus! {

/// Slots in the table.
pub const MAX_RECORDS: usize = 512;
/// Output blocks kept per record.
pub const MAX_BLOCKS: usize = 8;

/// One output block of a raw record, as the hook parsed it.
#[derive(Debug, Clone, Copy, PartialEq, Eq, Structural)]
pub struct OutputBlock {
    pub offset: usize,
    pub item: u32,
    pub min: u64,
    pub max: u64,
}

/// A record as it was on disk: its key, the index the loader used, and the
/// vanilla `(item, min, max)` of each output block in block order.
pub struct Remembered {
    pub key: u32,
    pub idx: u16,
    pub blocks: Vec<(u32, u64, u64)>,
}

pub struct RememberedView {
    pub key: u32,
    pub idx: u16,
    pub blocks: Seq<(u32, u64, u64)>,
}

impl View for Remembered {
    type V = RememberedView;

    open spec fn view(&self) -> RememberedView {
        RememberedView { key: self.key, idx: self.idx, blocks: self.blocks@ }
    }
}

struct Slot {
    key: u32,
    idx: u16,
    blocks: Vec<(u32, u64, u64)>,
}

/// The table.
pub struct Table {
    slots: Vec<Slot>,
}

/// Where a key's probe starts.
pub open spec fn home(key: u32) -> int {
    key as int % MAX_RECORDS as int
}

/// How far along its probe slot `p` is for a key starting at `h`.
pub open spec fn dist(h: int, p: int) -> int {
    if p >= h { p - h } else { p - h + MAX_RECORDS as int }
}

/// Slot `d` of a probe starting at `h`.
pub open spec fn probe(h: int, d: int) -> int {
    (h + d) % MAX_RECORDS as int
}

pub open spec fn blocks_of(b: Seq<OutputBlock>) -> Seq<(u32, u64, u64)> {
    b.map_values(|x: OutputBlock| (x.item, x.min, x.max))
}

/// The number of occupied slots among the first `n`.
pub open spec fn occupied_upto(keys: Seq<u32>, n: int) -> nat
    decreases n,
{
    if n <= 0 {
        0
    } else {
        occupied_upto(keys, n - 1) + if keys[n - 1] != 0 { 1nat } else { 0nat }
    }
}

/// The remembered records in slot order, among the first `n` slots.
pub open spec fn snapshot_upto(s: Seq<RememberedView>, n: int) -> Seq<RememberedView>
    decreases n,
{
    if n <= 0 {
        seq![]
    } else {
        let p = snapshot_upto(s, n - 1);
        if s[n - 1].key != 0 { p.push(s[n - 1]) } else { p }
    }
}

impl Table {
    /// Each slot: its key (0 = free), index and blocks.
    pub closed spec fn slots_view(&self) -> Seq<RememberedView> {
        self.slots@.map_values(|s: Slot| RememberedView { key: s.key, idx: s.idx, blocks: s.blocks@ })
    }

    pub open spec fn keys(&self) -> Seq<u32> {
        self.slots_view().map_values(|s: RememberedView| s.key)
    }

    /// Whether `key` has a slot.
    pub open spec fn holds(&self, key: u32) -> bool {
        key != 0 && exists|p: int| 0 <= p < MAX_RECORDS && #[trigger] self.slots_view()[p].key == key
    }

    /// The records, by key.
    pub open spec fn records(&self) -> Map<u32, (u16, Seq<(u32, u64, u64)>)> {
        Map::new(
            |k: u32| self.holds(k),
            |k: u32| {
                let p = choose|p: int| 0 <= p < MAX_RECORDS && #[trigger] self.slots_view()[p].key == k;
                (self.slots_view()[p].idx, self.slots_view()[p].blocks)
            },
        )
    }

    /// How many records are remembered.
    pub open spec fn count(&self) -> nat {
        occupied_upto(self.keys(), MAX_RECORDS as int)
    }

    pub open spec fn wf(&self) -> bool {
        let s = self.slots_view();
        &&& s.len() == MAX_RECORDS
        &&& forall|p: int, q: int|
            0 <= p < MAX_RECORDS && 0 <= q < MAX_RECORDS && #[trigger] s[p].key != 0 && s[p].key == #[trigger] s[q].key ==> p == q
        &&& forall|p: int, d: int|
            0 <= p < MAX_RECORDS && #[trigger] s[p].key != 0 && 0 <= d < dist(home(s[p].key), p) ==> #[trigger] s[probe(home(s[p].key), d)].key != 0
    }

    /// An empty table.
    pub fn new() -> (r: Table)
        ensures
            r.wf(),
            r.count() == 0,
            forall|k: u32| !r.holds(k),
    {
        let mut slots: Vec<Slot> = Vec::new();
        while slots.len() < MAX_RECORDS
            invariant
                slots@.len() <= MAX_RECORDS,
                forall|i: int| 0 <= i < slots@.len() ==> (#[trigger] slots@[i]).key == 0,
            decreases MAX_RECORDS - slots@.len(),
        {
            slots.push(Slot { key: 0, idx: 0, blocks: Vec::new() });
        }
        let r = Table { slots };
        proof {
            assert forall|i: int| 0 <= i < MAX_RECORDS implies #[trigger] r.slots_view()[i].key == 0 by {
                assert(r.slots@[i].key == 0);
            }
            lemma_none_occupied(r.keys(), MAX_RECORDS as int);
        }
        r
    }

    /// Record `key`'s vanilla blocks. `false` means nothing was stored: a
    /// key of 0, no blocks, more blocks than a slot holds, or a full table
    /// that does not already hold the key. A key already here is rewritten in
    /// place rather than claiming a second slot.
    pub fn remember(&mut self, key: u32, idx: u16, blocks: &[OutputBlock]) -> (r: bool)
        requires
            old(self).wf(),
        ensures
            final(self).wf(),
            r == (key != 0 && blocks@.len() > 0 && blocks@.len() <= MAX_BLOCKS && (old(self).holds(key)
                || old(self).count() < MAX_RECORDS)),
            r ==> final(self).records() == old(self).records().insert(key, (idx, blocks_of(blocks@))),
            r ==> final(self).count() == old(self).count() + (if old(self).holds(key) { 0nat } else { 1nat }),
            !r ==> final(self).slots_view() == old(self).slots_view(),
    {
        if key == 0 || blocks.len() == 0 || blocks.len() > MAX_BLOCKS {
            return false;
        }
        let start: usize = (key as usize) % MAX_RECORDS;
        let ghost s0 = self.slots_view();
        let mut i: usize = 0;
        while i < MAX_RECORDS
            invariant
                self.wf(),
                self.slots_view() == s0,
                old(self).slots_view() == s0,
                old(self).wf(),
                key != 0,
                blocks@.len() > 0 && blocks@.len() <= MAX_BLOCKS,
                start == home(key),
                0 <= i <= MAX_RECORDS,
                forall|d: int| 0 <= d < i ==> #[trigger] s0[probe(home(key), d)].key != 0 && s0[probe(home(key), d)].key != key,
            decreases MAX_RECORDS - i,
        {
            let pos = (start + i) % MAX_RECORDS;
            let k = self.slots[pos].key;
            proof {
                assert(s0[pos as int].key == k);
            }
            if k == 0 || k == key {
                let ghost was_held = self.holds(key);
                proof {
                    if k == 0 {
                        self.lemma_probe_misses(key, i as int);
                    }
                }
                let mut bl: Vec<(u32, u64, u64)> = Vec::new();
                let mut j: usize = 0;
                while j < blocks.len()
                    invariant
                        0 <= j <= blocks@.len(),
                        bl@ == blocks_of(blocks@.take(j as int)),
                    decreases blocks@.len() - j,
                {
                    let b = blocks[j];
                    bl.push((b.item, b.min, b.max));
                    proof {
                        assert(blocks@.take(j + 1) =~= blocks@.take(j as int).push(b));
                        assert(blocks_of(blocks@.take(j + 1)) =~= blocks_of(blocks@.take(j as int)).push((b.item, b.min, b.max)));
                    }
                    j = j + 1;
                }
                proof {
                    assert(blocks@.take(blocks@.len() as int) =~= blocks@);
                }
                let ghost old_self = *self;
                self.slots.set(pos, Slot { key, idx, blocks: bl });
                proof {
                    let s1 = self.slots_view();
                    let nv = RememberedView { key, idx, blocks: blocks_of(blocks@) };
                    assert(s1 =~= s0.update(pos as int, nv));
                    self.lemma_after_store(s0, pos as int, key, i as int, nv, k == 0);
                    lemma_records_after_store(*old(self), *self, pos as int, key, nv);
                    if k == 0 {
                        lemma_occupied_update(old(self).keys(), self.keys(), pos as int, MAX_RECORDS as int);
                        assert(!old(self).holds(key));
                        assert(old(self).count() < MAX_RECORDS) by {
                            lemma_occupied_bound(old(self).keys(), pos as int, MAX_RECORDS as int);
                        }
                    } else {
                        assert(self.keys() =~= old(self).keys());
                        assert(old(self).holds(key)) by {
                            assert(s0[pos as int].key == key);
                        }
                    }
                }
                return true;
            }
            i = i + 1;
        }
        proof {
            self.lemma_full(key);
        }
        false
    }

    /// A probe that reaches a free slot before the key means the key is not
    /// in the table.
    proof fn lemma_probe_misses(&self, key: u32, i: int)
        requires
            self.wf(),
            key != 0,
            0 <= i < MAX_RECORDS,
            self.slots_view()[probe(home(key), i)].key == 0,
            forall|d: int| 0 <= d < i ==> #[trigger] self.slots_view()[probe(home(key), d)].key != key,
        ensures
            !self.holds(key),
    {
        let s = self.slots_view();
        if self.holds(key) {
            let p = choose|p: int| 0 <= p < MAX_RECORDS && #[trigger] s[p].key == key;
            let delta = dist(home(key), p);
            assert(probe(home(key), delta) == p);
            if delta < i {
                assert(s[probe(home(key), delta)].key != key);
            } else if delta > i {
                assert(s[probe(home(key), i)].key != 0);
            } else {
                assert(s[p].key == 0);
            }
        }
    }

    /// Having stored `key` at the probe's `i`-th slot keeps the table
    /// well-formed.
    proof fn lemma_after_store(&self, s0: Seq<RememberedView>, pos: int, key: u32, i: int, nv: RememberedView, was_free: bool)
        requires
            s0.len() == MAX_RECORDS,
            nv.key == key,
            key != 0,
            0 <= i < MAX_RECORDS,
            pos == probe(home(key), i),
            self.slots_view() == s0.update(pos, nv),
            was_free == (s0[pos].key == 0),
            !was_free ==> s0[pos].key == key,
            forall|d: int| 0 <= d < i ==> #[trigger] s0[probe(home(key), d)].key != 0 && s0[probe(home(key), d)].key != key,
            forall|p: int, q: int|
                0 <= p < MAX_RECORDS && 0 <= q < MAX_RECORDS && #[trigger] s0[p].key != 0 && s0[p].key == #[trigger] s0[q].key ==> p == q,
            forall|p: int, d: int|
                0 <= p < MAX_RECORDS && #[trigger] s0[p].key != 0 && 0 <= d < dist(home(s0[p].key), p) ==> #[trigger] s0[probe(home(s0[p].key), d)].key != 0,
            was_free ==> forall|p: int| 0 <= p < MAX_RECORDS ==> #[trigger] s0[p].key != key,
        ensures
            self.wf(),
    {
        let s = self.slots_view();
        assert(dist(home(key), pos) == i);
        assert forall|p: int, q: int|
            0 <= p < MAX_RECORDS && 0 <= q < MAX_RECORDS && #[trigger] s[p].key != 0 && s[p].key == #[trigger] s[q].key implies p == q by {
            if p != pos && q != pos {
                assert(s[p] == s0[p] && s[q] == s0[q]);
            } else if p == pos && q != pos {
                assert(s[q] == s0[q]);
                if !was_free {
                    assert(s0[pos].key == s0[q].key);
                }
            } else if q == pos && p != pos {
                assert(s[p] == s0[p]);
                if !was_free {
                    assert(s0[pos].key == s0[p].key);
                }
            }
        }
        assert forall|p: int, d: int|
            0 <= p < MAX_RECORDS && #[trigger] s[p].key != 0 && 0 <= d < dist(home(s[p].key), p) implies #[trigger] s[probe(home(s[p].key), d)].key != 0 by {
            let t = probe(home(s[p].key), d);
            if p == pos {
                assert(s[p].key == key);
                assert(s0[probe(home(key), d)].key != 0);
                if t != pos {
                    assert(s[t] == s0[t]);
                }
            } else {
                assert(s[p] == s0[p]);
                assert(s0[t].key != 0);
                if t != pos {
                    assert(s[t] == s0[t]);
                }
            }
        }
    }

    /// When every slot of the probe is taken by another key, the table is
    /// full and does not hold the key.
    proof fn lemma_full(&self, key: u32)
        requires
            self.wf(),
            key != 0,
            forall|d: int| 0 <= d < MAX_RECORDS ==> #[trigger] self.slots_view()[probe(home(key), d)].key != 0
                && self.slots_view()[probe(home(key), d)].key != key,
        ensures
            !self.holds(key),
            self.count() == MAX_RECORDS,
    {
        let s = self.slots_view();
        assert forall|p: int| 0 <= p < MAX_RECORDS implies #[trigger] s[p].key != 0 && s[p].key != key by {
            let d = dist(home(key), p);
            assert(probe(home(key), d) == p);
        }
        assert forall|p: int| 0 <= p < MAX_RECORDS implies #[trigger] self.keys()[p] != 0 by {
            assert(self.keys()[p] == s[p].key);
        }
        lemma_all_occupied(self.keys(), MAX_RECORDS as int);
    }

    /// Every record remembered so far, in slot order.
    pub fn snapshot(&self) -> (r: Vec<Remembered>)
        requires
            self.wf(),
        ensures
            r@.map_values(|x: Remembered| x@) == snapshot_upto(self.slots_view(), MAX_RECORDS as int),
    {
        let mut out: Vec<Remembered> = Vec::new();
        let mut i: usize = 0;
        while i < MAX_RECORDS
            invariant
                self.wf(),
                0 <= i <= MAX_RECORDS,
                out@.map_values(|x: Remembered| x@) == snapshot_upto(self.slots_view(), i as int),
            decreases MAX_RECORDS - i,
        {
            let slot = &self.slots[i];
            proof {
                assert(self.slots_view()[i as int] == RememberedView { key: slot.key, idx: slot.idx, blocks: slot.blocks@ });
            }
            if slot.key != 0 {
                let mut bl: Vec<(u32, u64, u64)> = Vec::new();
                let mut j: usize = 0;
                while j < slot.blocks.len()
                    invariant
                        0 <= j <= slot.blocks@.len(),
                        bl@ == slot.blocks@.take(j as int),
                    decreases slot.blocks@.len() - j,
                {
                    bl.push(slot.blocks[j]);
                    j = j + 1;
                    assert(bl@ =~= slot.blocks@.take(j as int));
                }
                assert(slot.blocks@.take(slot.blocks@.len() as int) =~= slot.blocks@);
                let ghost before = out@;
                out.push(Remembered { key: slot.key, idx: slot.idx, blocks: bl });
                proof {
                    assert(out@.map_values(|x: Remembered| x@) =~= before.map_values(|x: Remembered| x@).push(self.slots_view()[i as int]));
                }
            }
            i = i + 1;
        }
        out
    }

    /// How many records are remembered.
    pub fn len(&self) -> (r: usize)
        requires
            self.wf(),
        ensures
            r == self.count(),
    {
        let mut n: usize = 0;
        let mut i: usize = 0;
        while i < MAX_RECORDS
            invariant
                self.wf(),
                0 <= i <= MAX_RECORDS,
                n == occupied_upto(self.keys(), i as int),
                n <= i,
            decreases MAX_RECORDS - i,
        {
            proof {
                assert(self.keys()[i as int] == self.slots@[i as int].key);
            }
            if self.slots[i].key != 0 {
                n = n + 1;
            }
            i = i + 1;
        }
        n
    }

    /// True before the first record has been remembered.
    pub fn is_empty(&self) -> (r: bool)
        requires
            self.wf(),
        ensures
            r == (self.count() == 0),
    {
        self.len() == 0
    }
}

/// A free slot below `n` keeps the count below `n`.
proof fn lemma_occupied_bound(keys: Seq<u32>, pos: int, n: int)
    requires
        0 <= pos < n <= keys.len(),
        keys[pos] == 0,
    ensures
        occupied_upto(keys, n) < n,
    decreases n,
{
    if n - 1 > pos {
        lemma_occupied_bound(keys, pos, n - 1);
    } else {
        lemma_occupied_le(keys, n - 1);
    }
}

proof fn lemma_occupied_le(keys: Seq<u32>, n: int)
    requires
        0 <= n <= keys.len(),
    ensures
        occupied_upto(keys, n) <= n,
    decreases n,
{
    if n > 0 {
        lemma_occupied_le(keys, n - 1);
    }
}

proof fn lemma_none_occupied(keys: Seq<u32>, n: int)
    requires
        0 <= n <= keys.len(),
        forall|i: int| 0 <= i < keys.len() ==> #[trigger] keys[i] == 0,
    ensures
        occupied_upto(keys, n) == 0,
    decreases n,
{
    if n > 0 {
        lemma_none_occupied(keys, n - 1);
    }
}

proof fn lemma_all_occupied(keys: Seq<u32>, n: int)
    requires
        0 <= n <= keys.len(),
        forall|i: int| 0 <= i < keys.len() ==> #[trigger] keys[i] != 0,
    ensures
        occupied_upto(keys, n) == n,
    decreases n,
{
    if n > 0 {
        lemma_all_occupied(keys, n - 1);
    }
}

/// Filling one free slot adds one to the count.
proof fn lemma_occupied_update(a: Seq<u32>, b: Seq<u32>, pos: int, n: int)
    requires
        a.len() == b.len(),
        0 <= pos < a.len(),
        0 <= n <= a.len(),
        a[pos] == 0,
        b[pos] != 0,
        forall|i: int| 0 <= i < a.len() && i != pos ==> #[trigger] a[i] == b[i],
    ensures
        occupied_upto(b, n) == occupied_upto(a, n) + if pos < n { 1nat } else { 0nat },
    decreases n,
{
    if n > 0 {
        lemma_occupied_update(a, b, pos, n - 1);
    }
}

/// Storing at the key's own slot changes the records by that key alone.
proof fn lemma_records_after_store(t0: Table, t1: Table, pos: int, key: u32, nv: RememberedView)
    requires
        t0.wf(),
        t1.wf(),
        0 <= pos < MAX_RECORDS,
        key != 0,
        nv.key == key,
        t1.slots_view() == t0.slots_view().update(pos, nv),
        t0.slots_view()[pos].key == 0 || t0.slots_view()[pos].key == key,
    ensures
        t1.records() == t0.records().insert(key, (nv.idx, nv.blocks)),
{
    let s0 = t0.slots_view();
    let s1 = t1.slots_view();
    assert(s1[pos].key == key);
    assert forall|k: u32| #![auto] t1.holds(k) == (t0.holds(k) || k == key) by {
        if k != key && t1.holds(k) {
            let p = choose|p: int| 0 <= p < MAX_RECORDS && #[trigger] s1[p].key == k;
            assert(p != pos);
            assert(s0[p].key == k);
        }
        if k != key && t0.holds(k) {
            let p = choose|p: int| 0 <= p < MAX_RECORDS && #[trigger] s0[p].key == k;
            assert(p != pos);
            assert(s1[p].key == k);
        }
    }
    assert forall|k: u32| #[trigger] t1.records().contains_key(k) implies t1.records()[k] == t0.records().insert(key, (nv.idx, nv.blocks))[k] by {
        let p1 = choose|p: int| 0 <= p < MAX_RECORDS && #[trigger] s1[p].key == k;
        if k == key {
            assert(p1 == pos);
        } else {
            let p0 = choose|p: int| 0 <= p < MAX_RECORDS && #[trigger] s0[p].key == k;
            assert(p1 != pos);
            assert(s0[p1].key == k);
            assert(p0 == p1);
            assert(s1[p1] == s0[p1]);
        }
    }
    assert(t1.records() =~= t0.records().insert(key, (nv.idx, nv.blocks)));
}

proof fn lemma_snapshot_counts(s: Seq<RememberedView>, keys: Seq<u32>, n: int)
    requires
        0 <= n <= s.len(),
        keys.len() == s.len(),
        forall|i: int| 0 <= i < s.len() ==> #[trigger] keys[i] == s[i].key,
    ensures
        snapshot_upto(s, n).len() == occupied_upto(keys, n),
        occupied_upto(keys, n) <= n,
    decreases n,
{
    if n > 0 {
        lemma_snapshot_counts(s, keys, n - 1);
        assert(keys[n - 1] == s[n - 1].key);
    }
}

/// The table's length is the snapshot's length, and at most `MAX_RECORDS`:
/// `len` and `snapshot` count the same occupied slots.
pub proof fn lemma_len_is_snapshot_len(t: Table)
    requires
        t.wf(),
    ensures
        snapshot_upto(t.slots_view(), MAX_RECORDS as int).len() == t.count(),
        t.count() <= MAX_RECORDS,
{
    lemma_snapshot_counts(t.slots_view(), t.keys(), MAX_RECORDS as int);
}

} // verus!
