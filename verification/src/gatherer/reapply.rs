//! The live path of the gatherer hook: the records the game has already
//! parsed get the yields the multipliers say now.
//!
//! Every value written is `remembered × current`, never `current × something`:
//! the vanilla blocks the remember table holds are the only fixed point, and
//! scaling what is already there would compound every edit. A block is only
//! written when the record's key and the block's item id still match what was
//! remembered, so a record the game replaced, or a layout that moved, is
//! skipped and counted rather than corrupted.
//!
//! Where the yields live in a parsed record:
//!
//! ```text
//! mgr+0x08    u32   record_count
//! mgr+0x58    ptr   array of record pointers (null = not loaded)
//! rec+0x08    u32   key, the same one the raw record header carries
//! rec+0x278   ptr   output list data: entries of 16 bytes
//! rec+0x280   u32   entry count
//! entry+0x00  ptr   block object, null when the disk flag was 0
//! entry+0x08  u32   the entry's own key field, zero on gather records
//! block+0x20  u64   MIN
//! block+0x28  u64   MAX
//! block+0x68  u32   item id
//! ```

use vstd::prelude::*;

use crate::gatherer::config::{mult_of, Config, Family};
use crate::gatherer::hook::{Counters, Outcome};
use crate::gatherer::remember::{Remembered, RememberedView, MAX_BLOCKS, MAX_RECORDS};
use crate::looter::memory::{
    byte_at, lemma_mem_write, mem_write, readable, u32_at, u64_at, Memory, SpecRegion,
};

verus! {

pub const MGR_COUNT: usize = 0x08;
pub const MGR_RECORDS: usize = 0x58;
pub const REC_KEY: usize = 0x08;
pub const REC_LIST: usize = 0x278;
pub const REC_COUNT: usize = 0x280;
/// Bytes per list entry.
pub const ENTRY: usize = 16;
pub const ENTRY_ITEM: usize = 8;
pub const BLOCK_MIN: usize = 0x20;
pub const BLOCK_MAX: usize = 0x28;
pub const BLOCK_ITEM: usize = 0x68;

/// The addresses a pointer the game hands out can hold: above `lo` and below
/// `hi`, which keep it off null and far enough below the top of the address
/// space.
#[derive(Debug, Clone, Copy, PartialEq, Eq, Structural)]
pub struct AddressWindow {
    pub lo: usize,
    pub hi: usize,
}

/// A pointer the game could really have handed out.
pub open spec fn plausible(w: AddressWindow, p: int) -> bool {
    p != 0 && w.lo <= p < w.hi
}

fn is_plausible(w: AddressWindow, p: u64) -> (r: bool)
    ensures
        r == plausible(w, p as int),
{
    p != 0 && w.lo as u64 <= p && p < w.hi as u64
}

/// `a × b`, held at `u64::MAX` when it does not fit.
pub open spec fn sat_mul(a: u64, b: u64) -> u64 {
    if a * b > u64::MAX { u64::MAX } else { (a * b) as u64 }
}

fn saturating_mul(a: u64, b: u64) -> (r: u64)
    ensures
        r == sat_mul(a, b),
{
    if a != 0 && b > u64::MAX / a {
        proof {
            assert(a * b > u64::MAX) by (nonlinear_arith)
                requires
                    a != 0,
                    b > u64::MAX / a,
            ;
        }
        u64::MAX
    } else {
        proof {
            assert(a * b <= u64::MAX) by (nonlinear_arith)
                requires
                    a == 0 || b <= u64::MAX / a,
            ;
        }
        a * b
    }
}

/// The family the first entry of `families` for `key` names.
pub open spec fn family_in(families: Seq<(u32, Family)>, key: u32) -> Option<Family>
    decreases families.len(),
{
    if families.len() == 0 {
        None
    } else if families[0].0 == key {
        Some(families[0].1)
    } else {
        family_in(families.skip(1), key)
    }
}

fn family_of(families: &[(u32, Family)], key: u32) -> (r: Option<Family>)
    ensures
        r == family_in(families@, key),
{
    let mut i: usize = 0;
    assert(families@.skip(0) =~= families@);
    while i < families.len()
        invariant
            0 <= i <= families@.len(),
            family_in(families@, key) == family_in(families@.skip(i as int), key),
        decreases families@.len() - i,
    {
        proof {
            let rest = families@.skip(i as int);
            assert(rest[0] == families@[i as int]);
            assert(rest.skip(1) =~= families@.skip(i + 1));
        }
        if families[i].0 == key {
            return Some(families[i].1);
        }
        i = i + 1;
    }
    None
}

/// The multiplier a remembered record should be at now: its family's live
/// value, at least 1, or 1 when the hook is off or the key is no gather
/// record. Never 0, which would zero the record's yields.
pub open spec fn wanted_mult(cfg: Config, families: Seq<(u32, Family)>, key: u32) -> u64 {
    match family_in(families, key) {
        Some(f) => if cfg.enabled {
            if mult_of(cfg, f) >= 1 { mult_of(cfg, f) as u64 } else { 1 }
        } else {
            1
        },
        None => 1,
    }
}

/// The family a key is looked up as is the one the first entry for that key
/// names: an entry `i` whose key is `key`, with no entry before it for
/// `key`, gives `families[i].1`; a key no entry names has no family.
pub proof fn lemma_family_is_first_entry(families: Seq<(u32, Family)>, key: u32)
    ensures
        forall|i: int|
            #![trigger families[i]]
            0 <= i < families.len() && families[i].0 == key && (forall|j: int| 0 <= j < i ==> families[j].0 != key)
                ==> family_in(families, key) == Some(families[i].1),
        (forall|j: int| 0 <= j < families.len() ==> families[j].0 != key) ==> family_in(families, key) is None,
    decreases families.len(),
{
    if families.len() > 0 {
        let rest = families.skip(1);
        lemma_family_is_first_entry(rest, key);
        assert forall|i: int|
            #![trigger families[i]]
            0 <= i < families.len() && families[i].0 == key && (forall|j: int| 0 <= j < i ==> families[j].0 != key)
            implies family_in(families, key) == Some(families[i].1) by {
            if i > 0 {
                assert(families[0].0 != key);
                assert(rest[i - 1] == families[i]);
                assert forall|j: int| 0 <= j < i - 1 implies rest[j].0 != key by {
                    assert(rest[j] == families[j + 1]);
                }
            }
        }
        if forall|j: int| 0 <= j < families.len() ==> families[j].0 != key {
            assert(families[0].0 != key);
            assert forall|j: int| 0 <= j < rest.len() implies rest[j].0 != key by {
                assert(rest[j] == families[j + 1]);
            }
        }
    }
}

/// The multiplier a record of family `f` is brought to is that family's own
/// setting, held at 1 from below, while the subsystem is on; 1 while it is
/// off; and 1 for a key with no family.
pub proof fn lemma_wanted_mult_is_own_family(cfg: Config, families: Seq<(u32, Family)>, key: u32, i: int)
    requires
        0 <= i < families.len(),
        families[i].0 == key,
        forall|j: int| 0 <= j < i ==> families[j].0 != key,
    ensures
        wanted_mult(cfg, families, key) == (if !cfg.enabled {
            1u64
        } else {
            let n = match families[i].1 {
                Family::Foraging => cfg.foraging,
                Family::Logging => cfg.logging,
                Family::Mining => cfg.mining,
                Family::Ore => cfg.ore,
            };
            if n >= 1 { n as u64 } else { 1u64 }
        }),
{
    lemma_family_is_first_entry(families, key);
    assert(families[i].0 == key);
}

/// A key no entry names is held at 1, whatever the settings.
pub proof fn lemma_wanted_mult_unknown_key(cfg: Config, families: Seq<(u32, Family)>, key: u32)
    requires
        forall|j: int| 0 <= j < families.len() ==> families[j].0 != key,
    ensures
        wanted_mult(cfg, families, key) == 1,
{
    lemma_family_is_first_entry(families, key);
}

/// Why a whole record was skipped.
#[derive(Debug, Clone, Copy, PartialEq, Eq, Structural)]
pub enum RecordSkip {
    Index,
    Unloaded,
    Key,
    Count,
    List,
    Read,
}

/// Why one block was skipped.
#[derive(Debug, Clone, Copy, PartialEq, Eq, Structural)]
pub enum BlockSkip {
    Null,
    Item,
    Read,
    Write,
}

pub open spec fn skip_record(o: Outcome, s: RecordSkip) -> Outcome {
    let o = Outcome { skipped: (o.skipped + 1) as usize, ..o };
    match s {
        RecordSkip::Index => Outcome { skip_index: (o.skip_index + 1) as usize, ..o },
        RecordSkip::Unloaded => Outcome { skip_unloaded: (o.skip_unloaded + 1) as usize, ..o },
        RecordSkip::Key => Outcome { skip_key: (o.skip_key + 1) as usize, ..o },
        RecordSkip::Count => Outcome { skip_count: (o.skip_count + 1) as usize, ..o },
        RecordSkip::List => Outcome { skip_list: (o.skip_list + 1) as usize, ..o },
        RecordSkip::Read => Outcome { skip_read: (o.skip_read + 1) as usize, ..o },
    }
}

pub open spec fn skip_block(o: Outcome, s: BlockSkip) -> Outcome {
    let o = Outcome { blocks_skipped: (o.blocks_skipped + 1) as usize, ..o };
    match s {
        BlockSkip::Null => Outcome { block_null: (o.block_null + 1) as usize, ..o },
        BlockSkip::Item => Outcome { block_item: (o.block_item + 1) as usize, ..o },
        BlockSkip::Read => Outcome { block_read: (o.block_read + 1) as usize, ..o },
        BlockSkip::Write => Outcome { block_write: (o.block_write + 1) as usize, ..o },
    }
}

/// Every counter of `o` within what `k` records of at most `MAX_BLOCKS`
/// blocks each can have added.
pub open spec fn within_counts(o: Outcome, k: int, blocks: int) -> bool {
    &&& o.visited <= k && o.rewritten <= k && o.unchanged <= k && o.skipped <= k
    &&& o.skip_index <= k && o.skip_unloaded <= k && o.skip_key <= k
    &&& o.skip_count <= k && o.skip_list <= k && o.skip_read <= k
    &&& o.blocks_skipped <= blocks && o.block_null <= blocks && o.block_item <= blocks
    &&& o.block_read <= blocks && o.block_write <= blocks
    &&& o.scalars <= 2 * blocks
}

fn bump_record(o: &mut Outcome, s: RecordSkip)
    requires
        old(o).skipped < usize::MAX,
        old(o).skip_index < usize::MAX && old(o).skip_unloaded < usize::MAX && old(o).skip_key < usize::MAX,
        old(o).skip_count < usize::MAX && old(o).skip_list < usize::MAX && old(o).skip_read < usize::MAX,
    ensures
        *final(o) == skip_record(*old(o), s),
{
    o.skipped = o.skipped + 1;
    match s {
        RecordSkip::Index => o.skip_index = o.skip_index + 1,
        RecordSkip::Unloaded => o.skip_unloaded = o.skip_unloaded + 1,
        RecordSkip::Key => o.skip_key = o.skip_key + 1,
        RecordSkip::Count => o.skip_count = o.skip_count + 1,
        RecordSkip::List => o.skip_list = o.skip_list + 1,
        RecordSkip::Read => o.skip_read = o.skip_read + 1,
    }
}

fn bump_block(o: &mut Outcome, s: BlockSkip)
    requires
        old(o).blocks_skipped < usize::MAX,
        old(o).block_null < usize::MAX && old(o).block_item < usize::MAX,
        old(o).block_read < usize::MAX && old(o).block_write < usize::MAX,
    ensures
        *final(o) == skip_block(*old(o), s),
{
    o.blocks_skipped = o.blocks_skipped + 1;
    match s {
        BlockSkip::Null => o.block_null = o.block_null + 1,
        BlockSkip::Item => o.block_item = o.block_item + 1,
        BlockSkip::Read => o.block_read = o.block_read + 1,
        BlockSkip::Write => o.block_write = o.block_write + 1,
    }
}

/// Block `i` of a record whose list is at `data`, remembered as
/// `(item, min, max)`: skipped with its reason, left alone when it already
/// holds `min × mult` and `max × mult`, else both written (or, in a dry run,
/// counted as if written). The memory after, the outcome after, and the
/// scalars written.
pub open spec fn block_spec(
    m: Seq<SpecRegion>,
    o: Outcome,
    data: int,
    i: int,
    blk: (u32, u64, u64),
    mult: u64,
    dry: bool,
    w: AddressWindow,
) -> (Seq<SpecRegion>, Outcome, int) {
    let entry = data + ENTRY * i;
    match u64_at(m, entry) {
        None => (m, skip_block(o, BlockSkip::Read), 0),
        Some(block) => if block == 0 {
            (m, skip_block(o, BlockSkip::Null), 0)
        } else if !plausible(w, block as int) {
            (m, skip_block(o, BlockSkip::Read), 0)
        } else {
            match (u32_at(m, entry + ENTRY_ITEM), u32_at(m, block + BLOCK_ITEM)) {
                (Some(entry_item), Some(block_item)) => if block_item != blk.0 || entry_item != 0 {
                    (m, skip_block(o, BlockSkip::Item), 0)
                } else {
                    let want_min = sat_mul(blk.1, mult);
                    let want_max = sat_mul(blk.2, mult);
                    match (u64_at(m, block + BLOCK_MIN), u64_at(m, block + BLOCK_MAX)) {
                        (Some(cur_min), Some(cur_max)) => if cur_min == want_min && cur_max == want_max {
                            (m, o, 0)
                        } else if dry {
                            (m, o, 2)
                        } else {
                            let m1 = mem_write(m, block + BLOCK_MIN, want_min);
                            let m2 = mem_write(m1, block + BLOCK_MAX, want_max);
                            let ok = (if readable(m, block + BLOCK_MIN, 8) { 1int } else { 0 }) + (if readable(
                                m1,
                                block + BLOCK_MAX,
                                8,
                            ) { 1int } else { 0 });
                            (m2, if ok < 2 { skip_block(o, BlockSkip::Write) } else { o }, ok)
                        },
                        _ => (m, skip_block(o, BlockSkip::Read), 0),
                    }
                },
                _ => (m, skip_block(o, BlockSkip::Read), 0),
            }
        },
    }
}

/// Blocks `i..` of a record in turn.
pub open spec fn blocks_from(
    m: Seq<SpecRegion>,
    o: Outcome,
    data: int,
    blocks: Seq<(u32, u64, u64)>,
    i: int,
    mult: u64,
    dry: bool,
    w: AddressWindow,
) -> (Seq<SpecRegion>, Outcome, int)
    decreases blocks.len() - i,
{
    if i < 0 || i >= blocks.len() {
        (m, o, 0)
    } else {
        let (m1, o1, n1) = block_spec(m, o, data, i, blocks[i], mult, dry, w);
        let (m2, o2, n2) = blocks_from(m1, o1, data, blocks, i + 1, mult, dry, w);
        (m2, o2, n1 + n2)
    }
}

/// One remembered record: found again through the manager's record array
/// and checked against what was remembered (the slot, the key, the list and
/// its length), then its blocks; counted as rewritten when any scalar was
/// written, unchanged when none was.
pub open spec fn record_spec(
    m: Seq<SpecRegion>,
    o: Outcome,
    rec: RememberedView,
    count: int,
    records: int,
    cfg: Config,
    families: Seq<(u32, Family)>,
    w: AddressWindow,
) -> (Seq<SpecRegion>, Outcome) {
    let o = Outcome { visited: (o.visited + 1) as usize, ..o };
    if rec.idx >= count {
        (m, skip_record(o, RecordSkip::Index))
    } else {
        match u64_at(m, records + 8 * rec.idx) {
            None => (m, skip_record(o, RecordSkip::Read)),
            Some(obj) => if obj == 0 {
                (m, skip_record(o, RecordSkip::Unloaded))
            } else if !plausible(w, obj as int) {
                (m, skip_record(o, RecordSkip::Read))
            } else {
                match u32_at(m, obj + REC_KEY) {
                    None => (m, skip_record(o, RecordSkip::Read)),
                    Some(k) => if k != rec.key {
                        (m, skip_record(o, RecordSkip::Key))
                    } else {
                        match (u32_at(m, obj + REC_COUNT), u64_at(m, obj + REC_LIST)) {
                            (Some(n), Some(data)) => if data == 0 {
                                (m, skip_record(o, RecordSkip::List))
                            } else if !plausible(w, data as int) {
                                (m, skip_record(o, RecordSkip::Read))
                            } else if n != rec.blocks.len() {
                                (m, skip_record(o, RecordSkip::Count))
                            } else {
                                let mult = wanted_mult(cfg, families, rec.key);
                                let (m2, o2, wrote) = blocks_from(m, o, data as int, rec.blocks, 0, mult, cfg.dry_run, w);
                                if wrote == 0 {
                                    (m2, Outcome { unchanged: (o2.unchanged + 1) as usize, ..o2 })
                                } else {
                                    (m2, Outcome { rewritten: (o2.rewritten + 1) as usize, scalars: (o2.scalars + wrote) as usize, ..o2 })
                                }
                            },
                            _ => (m, skip_record(o, RecordSkip::Read)),
                        }
                    },
                }
            },
        }
    }
}

/// Remembered records `i..` in turn.
pub open spec fn records_from(
    m: Seq<SpecRegion>,
    o: Outcome,
    recs: Seq<RememberedView>,
    i: int,
    count: int,
    records: int,
    cfg: Config,
    families: Seq<(u32, Family)>,
    w: AddressWindow,
) -> (Seq<SpecRegion>, Outcome)
    decreases recs.len() - i,
{
    if i < 0 || i >= recs.len() {
        (m, o)
    } else {
        let (m1, o1) = record_spec(m, o, recs[i], count, records, cfg, families, w);
        records_from(m1, o1, recs, i + 1, count, records, cfg, families, w)
    }
}

/// A fresh outcome for a manager that is known.
pub open spec fn fresh(manager_known: bool) -> Outcome {
    Outcome {
        manager_known,
        manager_unreadable: false,
        visited: 0,
        rewritten: 0,
        unchanged: 0,
        skipped: 0,
        scalars: 0,
        blocks_skipped: 0,
        skip_index: 0,
        skip_unloaded: 0,
        skip_key: 0,
        skip_count: 0,
        skip_list: 0,
        skip_read: 0,
        block_null: 0,
        block_item: 0,
        block_read: 0,
        block_write: 0,
    }
}

/// A whole pass: nothing before the hook has seen the manager; nothing but
/// the flag when the manager, its count or its record array does not read or
/// is not plausible; else every remembered record in turn.
pub open spec fn reapply_spec(
    m: Seq<SpecRegion>,
    mgr: usize,
    recs: Seq<RememberedView>,
    cfg: Config,
    families: Seq<(u32, Family)>,
    w: AddressWindow,
) -> (Seq<SpecRegion>, Outcome) {
    if mgr == 0 {
        (m, fresh(false))
    } else if !plausible(w, mgr as int) {
        (m, Outcome { manager_unreadable: true, ..fresh(true) })
    } else {
        match (u32_at(m, mgr + MGR_COUNT), u64_at(m, mgr + MGR_RECORDS)) {
            (Some(count), Some(records)) => if plausible(w, records as int) {
                records_from(m, fresh(true), recs, 0, count as int, records as int, cfg, families, w)
            } else {
                (m, Outcome { manager_unreadable: true, ..fresh(true) })
            },
            _ => (m, Outcome { manager_unreadable: true, ..fresh(true) }),
        }
    }
}

pub open spec fn recs_view(v: Seq<Remembered>) -> Seq<RememberedView> {
    v.map_values(|r: Remembered| r@)
}

/// Block counters that a further `n` blocks cannot overflow.
pub open spec fn block_room(o: Outcome, n: int) -> bool {
    &&& o.blocks_skipped + n <= usize::MAX && o.block_null + n <= usize::MAX && o.block_item + n <= usize::MAX
    &&& o.block_read + n <= usize::MAX && o.block_write + n <= usize::MAX
}

/// Everything but the block counters as it was.
pub open spec fn same_but_blocks(a: Outcome, b: Outcome) -> bool {
    a == Outcome {
        blocks_skipped: a.blocks_skipped,
        block_null: a.block_null,
        block_item: a.block_item,
        block_read: a.block_read,
        block_write: a.block_write,
        ..b
    }
}

/// How far each block counter of `b` is past `a`'s: at most `n`.
pub open spec fn blocks_grew(a: Outcome, b: Outcome, n: int) -> bool {
    &&& a.blocks_skipped <= b.blocks_skipped <= a.blocks_skipped + n
    &&& a.block_null <= b.block_null <= a.block_null + n
    &&& a.block_item <= b.block_item <= a.block_item + n
    &&& a.block_read <= b.block_read <= a.block_read + n
    &&& a.block_write <= b.block_write <= a.block_write + n
}

fn block_pass(
    mem: &mut Memory,
    o: &mut Outcome,
    data: usize,
    i: usize,
    blk: (u32, u64, u64),
    mult: u64,
    dry: bool,
    w: AddressWindow,
) -> (n: usize)
    requires
        block_room(*old(o), 1),
    ensures
        (final(mem)@, *final(o), n as int) == block_spec(old(mem)@, *old(o), data as int, i as int, blk, mult, dry, w),
        n <= 2,
        same_but_blocks(*final(o), *old(o)),
        blocks_grew(*old(o), *final(o), 1),
{
    if i > usize::MAX / ENTRY {
        proof {
            assert(ENTRY * i > usize::MAX) by (nonlinear_arith)
                requires
                    i > usize::MAX / 16,
            ;
            assert(byte_at(mem@, data + ENTRY * i + 0) is None);
        }
        bump_block(o, BlockSkip::Read);
        return 0;
    }
    proof {
        assert(ENTRY * i <= usize::MAX) by (nonlinear_arith)
            requires
                i <= usize::MAX / 16,
        ;
    }
    let block = match mem.u64_at(data, ENTRY * i) {
        Some(b) => b,
        None => {
            bump_block(o, BlockSkip::Read);
            return 0;
        },
    };
    if block == 0 {
        bump_block(o, BlockSkip::Null);
        return 0;
    }
    if !is_plausible(w, block) {
        bump_block(o, BlockSkip::Read);
        return 0;
    }
    let block = block as usize;
    proof {
        assert(byte_at(mem@, data + ENTRY * i + 7) is Some);
    }
    let entry = data + ENTRY * i;
    let entry_item = mem.u32_at(entry, ENTRY_ITEM);
    let block_item = mem.u32_at(block, BLOCK_ITEM);
    let (entry_item, block_item) = match (entry_item, block_item) {
        (Some(a), Some(b)) => (a, b),
        _ => {
            bump_block(o, BlockSkip::Read);
            return 0;
        },
    };
    if block_item != blk.0 || entry_item != 0 {
        bump_block(o, BlockSkip::Item);
        return 0;
    }
    let want_min = saturating_mul(blk.1, mult);
    let want_max = saturating_mul(blk.2, mult);
    let (cur_min, cur_max) = match (mem.u64_at(block, BLOCK_MIN), mem.u64_at(block, BLOCK_MAX)) {
        (Some(a), Some(b)) => (a, b),
        _ => {
            bump_block(o, BlockSkip::Read);
            return 0;
        },
    };
    if cur_min == want_min && cur_max == want_max {
        return 0;
    }
    if dry {
        return 2;
    }
    proof {
        assert(byte_at(mem@, block + BLOCK_MAX + 7) is Some);
    }
    let ok1 = mem.write_u64(block + BLOCK_MIN, want_min);
    let ok2 = mem.write_u64(block + BLOCK_MAX, want_max);
    let ok: usize = (if ok1 { 1 } else { 0 }) + (if ok2 { 1 } else { 0 });
    if ok < 2 {
        bump_block(o, BlockSkip::Write);
    }
    ok
}

/// Every counter of `o` within what its own `visited` records can have
/// added, at most `MAX_BLOCKS` blocks each.
pub open spec fn counts_bounded(o: Outcome) -> bool {
    within_counts(o, o.visited as int, MAX_BLOCKS * o.visited)
}

fn wanted_multiplier(cfg: &Config, families: &[(u32, Family)], key: u32) -> (r: u64)
    ensures
        r == wanted_mult(*cfg, families@, key),
{
    match family_of(families, key) {
        Some(f) => if cfg.enabled {
            let m = cfg.multiplier(f);
            if m >= 1 { m as u64 } else { 1 }
        } else {
            1
        },
        None => 1,
    }
}

#[verifier::spinoff_prover]
#[verifier::rlimit(40)]
fn record_pass(
    mem: &mut Memory,
    o: &mut Outcome,
    rec: &Remembered,
    count: u32,
    records: usize,
    cfg: &Config,
    families: &[(u32, Family)],
    w: AddressWindow,
)
    requires
        counts_bounded(*old(o)),
        old(o).visited < MAX_RECORDS,
        rec.blocks@.len() <= MAX_BLOCKS,
    ensures
        (final(mem)@, *final(o)) == record_spec(old(mem)@, *old(o), rec@, count as int, records as int, *cfg, families@, w),
        counts_bounded(*final(o)),
        final(o).visited == old(o).visited + 1,
{
    o.visited = o.visited + 1;
    let idx = rec.idx as usize;
    if idx >= count as usize {
        bump_record(o, RecordSkip::Index);
        return;
    }
    let obj = match mem.u64_at(records, 8 * idx) {
        Some(p) => p,
        None => {
            bump_record(o, RecordSkip::Read);
            return;
        },
    };
    if obj == 0 {
        bump_record(o, RecordSkip::Unloaded);
        return;
    }
    if !is_plausible(w, obj) {
        bump_record(o, RecordSkip::Read);
        return;
    }
    let obj = obj as usize;
    match mem.u32_at(obj, REC_KEY) {
        Some(k) => if k != rec.key {
            bump_record(o, RecordSkip::Key);
            return;
        },
        None => {
            bump_record(o, RecordSkip::Read);
            return;
        },
    }
    let (n, data) = match (mem.u32_at(obj, REC_COUNT), mem.u64_at(obj, REC_LIST)) {
        (Some(n), Some(d)) => (n, d),
        _ => {
            bump_record(o, RecordSkip::Read);
            return;
        },
    };
    if data == 0 {
        bump_record(o, RecordSkip::List);
        return;
    }
    if !is_plausible(w, data) {
        bump_record(o, RecordSkip::Read);
        return;
    }
    if n as usize != rec.blocks.len() {
        bump_record(o, RecordSkip::Count);
        return;
    }
    let data = data as usize;
    let mult = wanted_multiplier(cfg, families, rec.key);
    let ghost m0 = mem@;
    let ghost o0 = *o;
    let mut wrote: usize = 0;
    let mut j: usize = 0;
    while j < rec.blocks.len()
        invariant
            0 <= j <= rec.blocks@.len() <= MAX_BLOCKS,
            wrote <= 2 * j,
            same_but_blocks(*o, o0),
            blocks_grew(o0, *o, j as int),
            counts_bounded(o0),
            o0.visited <= MAX_RECORDS,
            ({
                let all = blocks_from(m0, o0, data as int, rec.blocks@, 0, mult, cfg.dry_run, w);
                let rest = blocks_from(mem@, *o, data as int, rec.blocks@, j as int, mult, cfg.dry_run, w);
                all == (rest.0, rest.1, wrote + rest.2)
            }),
        decreases rec.blocks@.len() - j,
    {
        let n1 = block_pass(mem, o, data, j, rec.blocks[j], mult, cfg.dry_run, w);
        wrote = wrote + n1;
        j = j + 1;
    }
    if wrote == 0 {
        o.unchanged = o.unchanged + 1;
    } else {
        o.rewritten = o.rewritten + 1;
        o.scalars = o.scalars + wrote;
    }
}

/// Rewrite the already parsed records so their yields are the vanilla ones
/// times the multiplier the settings say now. `mgr` is the record manager
/// the load hook saw, 0 before it has fired; `recs` the remembered records;
/// `families` the gather family of each record key. Nothing is written in a
/// dry run; every skip is counted by its reason, and the scalars written are
/// added to the hook's counters.
pub fn reapply(
    mem: &mut Memory,
    counters: &mut Counters,
    mgr: usize,
    recs: &[Remembered],
    cfg: &Config,
    families: &[(u32, Family)],
    w: AddressWindow,
) -> (r: Outcome)
    requires
        recs@.len() <= MAX_RECORDS,
        forall|i: int| 0 <= i < recs@.len() ==> (#[trigger] recs@[i]).blocks@.len() <= MAX_BLOCKS,
    ensures
        (final(mem)@, r) == reapply_spec(old(mem)@, mgr, recs_view(recs@), *cfg, families@, w),
        final(counters).view_counts() == (old(counters).view_counts().0, old(counters).view_counts().1, if cfg.dry_run {
            old(counters).view_counts().2
        } else {
            old(counters).view_counts().2.wrapping_add(r.scalars as u64)
        }),
{
    if mgr == 0 {
        return Outcome::empty(false);
    }
    let mut out = Outcome::empty(true);
    if !is_plausible(w, mgr as u64) {
        out.manager_unreadable = true;
        return out;
    }
    let (count, records) = match (mem.u32_at(mgr, MGR_COUNT), mem.u64_at(mgr, MGR_RECORDS)) {
        (Some(c), Some(r)) => (c, r),
        _ => {
            out.manager_unreadable = true;
            return out;
        },
    };
    if !is_plausible(w, records) {
        out.manager_unreadable = true;
        return out;
    }
    let records = records as usize;
    let ghost m0 = mem@;
    let ghost rv = recs_view(recs@);
    let mut i: usize = 0;
    while i < recs.len()
        invariant
            0 <= i <= recs@.len() <= MAX_RECORDS,
            forall|k: int| 0 <= k < recs@.len() ==> (#[trigger] recs@[k]).blocks@.len() <= MAX_BLOCKS,
            rv == recs_view(recs@),
            out.visited == i,
            counts_bounded(out),
            records_from(m0, fresh(true), rv, 0, count as int, records as int, *cfg, families@, w)
                == records_from(mem@, out, rv, i as int, count as int, records as int, *cfg, families@, w),
        decreases recs@.len() - i,
    {
        assert(rv[i as int] == recs@[i as int]@);
        record_pass(mem, &mut out, &recs[i], count, records, cfg, families, w);
        i = i + 1;
    }
    if !cfg.dry_run {
        counters.add_edits(out.scalars as u64);
    }
    out
}

proof fn lemma_u32_same(m: Seq<SpecRegion>, n: Seq<SpecRegion>, a: int)
    requires
        forall|y: int| a <= y < a + 4 ==> #[trigger] byte_at(n, y) == byte_at(m, y),
    ensures
        u32_at(n, a) == u32_at(m, a),
{
    assert(byte_at(n, a + 0) == byte_at(m, a + 0));
    assert(byte_at(n, a + 1) == byte_at(m, a + 1));
    assert(byte_at(n, a + 2) == byte_at(m, a + 2));
    assert(byte_at(n, a + 3) == byte_at(m, a + 3));
    assert(readable(n, a, 4) == readable(m, a, 4)) by {
        if readable(m, a, 4) {
            assert forall|i: int| 0 <= i < 4 implies (#[trigger] byte_at(n, a + i)) is Some by {
                assert(byte_at(m, a + i) is Some);
            }
        }
        if readable(n, a, 4) {
            assert forall|i: int| 0 <= i < 4 implies (#[trigger] byte_at(m, a + i)) is Some by {
                assert(byte_at(n, a + i) is Some);
            }
        }
    }
}

proof fn lemma_u64_same(m: Seq<SpecRegion>, n: Seq<SpecRegion>, a: int)
    requires
        forall|y: int| a <= y < a + 8 ==> #[trigger] byte_at(n, y) == byte_at(m, y),
    ensures
        u64_at(n, a) == u64_at(m, a),
{
    lemma_u32_same(m, n, a);
    lemma_u32_same(m, n, a + 4);
}

proof fn lemma_u64_readable(m: Seq<SpecRegion>, a: int)
    requires
        u64_at(m, a) is Some,
    ensures
        readable(m, a, 8),
{
    assert forall|i: int| 0 <= i < 8 implies (#[trigger] byte_at(m, a + i)) is Some by {
        if i < 4 {
            assert(byte_at(m, a + i) is Some);
        } else {
            assert(byte_at(m, (a + 4) + (i - 4)) is Some);
            assert(a + 4 + (i - 4) == a + i);
        }
    }
}

/// After a pass over an output block whose entry and item check out and
/// whose bounds read, the block holds the remembered vanilla bounds times the
/// multiplier the live config wants now for the record's family (saturating,
/// 1 when the family is unknown or the subsystem is off), whatever bounds it
/// held before: a multiplier is never applied on top of an earlier one.
pub proof fn lemma_reapplied_bounds_are_vanilla_times_current(
    m: Seq<SpecRegion>,
    o: Outcome,
    data: int,
    i: int,
    blk: (u32, u64, u64),
    cfg: Config,
    families: Seq<(u32, Family)>,
    key: u32,
    w: AddressWindow,
    b: u64,
)
    requires
        u64_at(m, data + ENTRY * i) == Some(b),
        b != 0,
        plausible(w, b as int),
        u32_at(m, data + ENTRY * i + ENTRY_ITEM) == Some(0u32),
        u32_at(m, b + BLOCK_ITEM) == Some(blk.0),
        u64_at(m, b + BLOCK_MIN) is Some,
        u64_at(m, b + BLOCK_MAX) is Some,
        data + ENTRY * i + 12 <= b + BLOCK_MIN || b + BLOCK_MAX + 8 <= data + ENTRY * i,
    ensures
        ({
            let mult = wanted_mult(cfg, families, key);
            let r = block_spec(m, o, data, i, blk, mult, false, w);
            &&& u64_at(r.0, b + BLOCK_MIN) == Some(sat_mul(blk.1, mult))
            &&& u64_at(r.0, b + BLOCK_MAX) == Some(sat_mul(blk.2, mult))
        }),
{
    let mult = wanted_mult(cfg, families, key);
    lemma_block_pass_is_a_fixed_point(m, o, o, data, i, blk, mult, w, b);
    let want_min = sat_mul(blk.1, mult);
    let want_max = sat_mul(blk.2, mult);
    let cur_min = u64_at(m, b + BLOCK_MIN)->0;
    let cur_max = u64_at(m, b + BLOCK_MAX)->0;
    if !(cur_min == want_min && cur_max == want_max) {
        lemma_u64_readable(m, b + BLOCK_MIN);
        lemma_u64_readable(m, b + BLOCK_MAX);
        let m1 = mem_write(m, b + BLOCK_MIN, want_min);
        lemma_mem_write(m, b + BLOCK_MIN, want_min);
        assert(readable(m1, b + BLOCK_MAX, 8)) by {
            assert forall|k: int| 0 <= k < 8 implies (#[trigger] byte_at(m1, b + BLOCK_MAX + k)) is Some by {
                assert(byte_at(m, (b + BLOCK_MAX) + k) is Some);
            }
        }
    }
}

/// Re-applying the same multiplier to a block the live path has just passed
/// over writes nothing more: a rewritten block reads back as
/// `remembered × multiplier`, so the next pass finds it unchanged, and a
/// skipped block is skipped again. This is what keeps repeated passes from
/// compounding. It holds wherever the list entry does not overlap the
/// block's two yields.
pub proof fn lemma_block_pass_is_a_fixed_point(
    m: Seq<SpecRegion>,
    o: Outcome,
    o2: Outcome,
    data: int,
    i: int,
    blk: (u32, u64, u64),
    mult: u64,
    w: AddressWindow,
    b: u64,
)
    requires
        u64_at(m, data + ENTRY * i) == Some(b),
        data + ENTRY * i + 12 <= b + BLOCK_MIN || b + BLOCK_MAX + 8 <= data + ENTRY * i,
    ensures
        ({
            let first = block_spec(m, o, data, i, blk, mult, false, w);
            let again = block_spec(first.0, o2, data, i, blk, mult, false, w);
            &&& again.0 == first.0 && again.2 == 0
            &&& first.2 > 0 ==> u64_at(first.0, b + BLOCK_MIN) == Some(sat_mul(blk.1, mult))
                && u64_at(first.0, b + BLOCK_MAX) == Some(sat_mul(blk.2, mult))
        }),
{
    let entry = data + ENTRY * i;
    let first = block_spec(m, o, data, i, blk, mult, false, w);
    let want_min = sat_mul(blk.1, mult);
    let want_max = sat_mul(blk.2, mult);
    if b != 0 && plausible(w, b as int) && u32_at(m, entry + ENTRY_ITEM) == Some(0u32)
        && u32_at(m, b + BLOCK_ITEM) == Some(blk.0) {
        match (u64_at(m, b + BLOCK_MIN), u64_at(m, b + BLOCK_MAX)) {
            (Some(cur_min), Some(cur_max)) => {
                if !(cur_min == want_min && cur_max == want_max) {
                    lemma_u64_readable(m, b + BLOCK_MIN);
                    lemma_u64_readable(m, b + BLOCK_MAX);
                    let m1 = mem_write(m, b + BLOCK_MIN, want_min);
                    lemma_mem_write(m, b + BLOCK_MIN, want_min);
                    assert forall|y: int| b + BLOCK_MAX <= y < b + BLOCK_MAX + 8 implies (#[trigger] byte_at(m1, y)) is Some by {
                        assert(byte_at(m, y) is Some) by {
                            assert(byte_at(m, (b + BLOCK_MAX) + (y - (b + BLOCK_MAX))) is Some);
                        }
                    }
                    assert(readable(m1, b + BLOCK_MAX, 8)) by {
                        assert forall|k: int| 0 <= k < 8 implies (#[trigger] byte_at(m1, b + BLOCK_MAX + k)) is Some by {
                            assert(b + BLOCK_MAX <= b + BLOCK_MAX + k < b + BLOCK_MAX + 8);
                        }
                    }
                    let m2 = mem_write(m1, b + BLOCK_MAX, want_max);
                    lemma_mem_write(m1, b + BLOCK_MAX, want_max);
                    assert(first.0 == m2);
                    lemma_u64_same(m1, m2, b + BLOCK_MIN);
                    lemma_u64_same(m, m2, entry);
                    lemma_u32_same(m, m2, entry + ENTRY_ITEM);
                    lemma_u32_same(m, m2, b + BLOCK_ITEM);
                }
            },
            _ => {},
        }
    }
}

impl Outcome {
    /// A fresh outcome: nothing visited, nothing counted.
    pub fn empty(manager_known: bool) -> (r: Outcome)
        ensures
            r == fresh(manager_known),
    {
        Outcome {
            manager_known,
            manager_unreadable: false,
            visited: 0,
            rewritten: 0,
            unchanged: 0,
            skipped: 0,
            scalars: 0,
            blocks_skipped: 0,
            skip_index: 0,
            skip_unloaded: 0,
            skip_key: 0,
            skip_count: 0,
            skip_list: 0,
            skip_read: 0,
            block_null: 0,
            block_item: 0,
            block_read: 0,
            block_write: 0,
        }
    }
}

// ---------------------------------------------------------------------------
// No compounding over a whole record
// ---------------------------------------------------------------------------

/// Output block `i` of the list at `data` checks out: its entry reads, is
/// non-null and plausible, its key field is 0, the block's item is the
/// remembered one, and both bounds read.
pub open spec fn block_ok(m: Seq<SpecRegion>, data: int, i: int, blk: (u32, u64, u64), w: AddressWindow, b: u64) -> bool {
    &&& u64_at(m, data + ENTRY * i) == Some(b)
    &&& b != 0
    &&& plausible(w, b as int)
    &&& u32_at(m, data + ENTRY * i + ENTRY_ITEM) == Some(0u32)
    &&& u32_at(m, b + BLOCK_ITEM) == Some(blk.0)
    &&& u64_at(m, b + BLOCK_MIN) is Some
    &&& u64_at(m, b + BLOCK_MAX) is Some
}

/// Whether address `y` is one of the bound bytes of the block at `b`.
pub open spec fn in_bounds_of(b: u64, y: int) -> bool {
    b + BLOCK_MIN <= y < b + BLOCK_MAX + 8
}

/// The bounds of the block at `b` and entry `j` of the list at `data` share
/// no byte.
pub open spec fn entry_apart(data: int, b: u64, j: int) -> bool {
    data + ENTRY * j + 12 <= b + BLOCK_MIN || b + BLOCK_MAX + 8 <= data + ENTRY * j
}

/// The blocks' bounds are apart from each other and from every entry and
/// item field the pass reads.
pub open spec fn apart(data: int, bs: Seq<u64>) -> bool {
    &&& forall|i: int, j: int| 0 <= i < bs.len() && 0 <= j < bs.len() && i != j
        ==> #[trigger] bs[i] + BLOCK_MAX + 8 <= #[trigger] bs[j] + BLOCK_MIN || bs[j] + BLOCK_MAX + 8 <= bs[i] + BLOCK_MIN
    &&& forall|i: int, j: int| 0 <= i < bs.len() && 0 <= j < bs.len() ==> #[trigger] entry_apart(data, bs[i], j)
    &&& forall|i: int, j: int| 0 <= i < bs.len() && 0 <= j < bs.len()
        ==> #[trigger] bs[j] + BLOCK_ITEM + 4 <= #[trigger] bs[i] + BLOCK_MIN || bs[i] + BLOCK_MAX + 8 <= bs[j] + BLOCK_ITEM
}

proof fn lemma_block_effect(m: Seq<SpecRegion>, o: Outcome, data: int, i: int, blk: (u32, u64, u64), mult: u64, w: AddressWindow, b: u64)
    requires
        block_ok(m, data, i, blk, w, b),
        data + ENTRY * i + 12 <= b + BLOCK_MIN || b + BLOCK_MAX + 8 <= data + ENTRY * i,
    ensures
        ({
            let r = block_spec(m, o, data, i, blk, mult, false, w);
            &&& u64_at(r.0, b + BLOCK_MIN) == Some(sat_mul(blk.1, mult))
            &&& u64_at(r.0, b + BLOCK_MAX) == Some(sat_mul(blk.2, mult))
            &&& forall|y: int| !in_bounds_of(b, y) ==> #[trigger] byte_at(r.0, y) == byte_at(m, y)
        }),
{
    lemma_block_pass_is_a_fixed_point(m, o, o, data, i, blk, mult, w, b);
    let want_min = sat_mul(blk.1, mult);
    let want_max = sat_mul(blk.2, mult);
    let cur_min = u64_at(m, b + BLOCK_MIN)->0;
    let cur_max = u64_at(m, b + BLOCK_MAX)->0;
    if !(cur_min == want_min && cur_max == want_max) {
        lemma_u64_readable(m, b + BLOCK_MIN);
        lemma_u64_readable(m, b + BLOCK_MAX);
        let m1 = mem_write(m, b + BLOCK_MIN, want_min);
        lemma_mem_write(m, b + BLOCK_MIN, want_min);
        assert(readable(m1, b + BLOCK_MAX, 8)) by {
            assert forall|k: int| 0 <= k < 8 implies (#[trigger] byte_at(m1, b + BLOCK_MAX + k)) is Some by {
                assert(byte_at(m, (b + BLOCK_MAX) + k) is Some);
            }
        }
        lemma_mem_write(m1, b + BLOCK_MAX, want_max);
    }
}

proof fn lemma_blocks_pass(
    m: Seq<SpecRegion>,
    o: Outcome,
    data: int,
    blocks: Seq<(u32, u64, u64)>,
    k: int,
    mult: u64,
    w: AddressWindow,
    bs: Seq<u64>,
)
    requires
        0 <= k <= blocks.len(),
        bs.len() == blocks.len(),
        apart(data, bs),
        forall|j: int| k <= j < blocks.len() ==> #[trigger] block_ok(m, data, j, blocks[j], w, bs[j]),
    ensures
        ({
            let r = blocks_from(m, o, data, blocks, k, mult, false, w);
            &&& forall|j: int| k <= j < blocks.len() ==> u64_at(r.0, #[trigger] bs[j] + BLOCK_MIN) == Some(sat_mul(blocks[j].1, mult))
                && u64_at(r.0, bs[j] + BLOCK_MAX) == Some(sat_mul(blocks[j].2, mult))
            &&& forall|y: int| (forall|j: int| k <= j < blocks.len() ==> !in_bounds_of(#[trigger] bs[j], y))
                ==> #[trigger] byte_at(r.0, y) == byte_at(m, y)
        }),
    decreases blocks.len() - k,
{
    if k < blocks.len() {
        let b = bs[k];
        assert(entry_apart(data, bs[k], k));
        lemma_block_effect(m, o, data, k, blocks[k], mult, w, b);
        let first = block_spec(m, o, data, k, blocks[k], mult, false, w);
        let m1 = first.0;
        assert forall|j: int| k + 1 <= j < blocks.len() implies #[trigger] block_ok(m1, data, j, blocks[j], w, bs[j]) by {
            assert(block_ok(m, data, j, blocks[j], w, bs[j]));
            assert(entry_apart(data, bs[k], j));
            assert(bs[j] + BLOCK_ITEM + 4 <= bs[k] + BLOCK_MIN || bs[k] + BLOCK_MAX + 8 <= bs[j] + BLOCK_ITEM);
            assert(bs[k] + BLOCK_MAX + 8 <= bs[j] + BLOCK_MIN || bs[j] + BLOCK_MAX + 8 <= bs[k] + BLOCK_MIN);
            lemma_u64_same(m, m1, data + ENTRY * j);
            lemma_u32_same(m, m1, data + ENTRY * j + ENTRY_ITEM);
            lemma_u32_same(m, m1, bs[j] + BLOCK_ITEM);
            lemma_u64_same(m, m1, bs[j] + BLOCK_MIN);
            lemma_u64_same(m, m1, bs[j] + BLOCK_MAX);
        }
        lemma_blocks_pass(m1, first.1, data, blocks, k + 1, mult, w, bs);
        let r = blocks_from(m, o, data, blocks, k, mult, false, w);
        assert(r.0 == blocks_from(m1, first.1, data, blocks, k + 1, mult, false, w).0);
        assert forall|y: int| in_bounds_of(b, y) implies #[trigger] byte_at(r.0, y) == byte_at(m1, y) by {
            assert forall|j: int| k + 1 <= j < blocks.len() implies !in_bounds_of(#[trigger] bs[j], y) by {
                assert(bs[k] + BLOCK_MAX + 8 <= bs[j] + BLOCK_MIN || bs[j] + BLOCK_MAX + 8 <= bs[k] + BLOCK_MIN);
            }
        }
        lemma_u64_same(m1, r.0, b + BLOCK_MIN);
        lemma_u64_same(m1, r.0, b + BLOCK_MAX);
    }
}

proof fn lemma_record_reaches_blocks(
    m: Seq<SpecRegion>,
    o: Outcome,
    rec: RememberedView,
    count: int,
    records: int,
    cfg: Config,
    families: Seq<(u32, Family)>,
    w: AddressWindow,
    obj: u64,
    data: u64,
)
    requires
        rec.idx < count,
        u64_at(m, records + 8 * rec.idx) == Some(obj),
        obj != 0,
        plausible(w, obj as int),
        u32_at(m, obj + REC_KEY) == Some(rec.key),
        rec.blocks.len() <= u32::MAX,
        u32_at(m, obj + REC_COUNT) == Some(rec.blocks.len() as u32),
        u64_at(m, obj + REC_LIST) == Some(data),
        data != 0,
        plausible(w, data as int),
    ensures
        record_spec(m, o, rec, count, records, cfg, families, w).0 == blocks_from(
            m,
            Outcome { visited: (o.visited + 1) as usize, ..o },
            data as int,
            rec.blocks,
            0,
            wanted_mult(cfg, families, rec.key),
            cfg.dry_run,
            w,
        ).0,
{
}

/// No compounding over a whole record: when a remembered record is found
/// again (its slot, key, list and count check out), the pass is not a dry
/// run, and every one of its output blocks checks out with bounds apart from
/// each other and from the fields the pass reads, then after the record's
/// pass every block holds its remembered vanilla bounds times the
/// multiplier the config wants now for the record's family, whatever the
/// blocks held before.
pub proof fn lemma_record_pass_is_vanilla_times_current(
    m: Seq<SpecRegion>,
    o: Outcome,
    rec: RememberedView,
    count: int,
    records: int,
    cfg: Config,
    families: Seq<(u32, Family)>,
    w: AddressWindow,
    obj: u64,
    data: u64,
    bs: Seq<u64>,
)
    requires
        !cfg.dry_run,
        rec.idx < count,
        u64_at(m, records + 8 * rec.idx) == Some(obj),
        obj != 0,
        plausible(w, obj as int),
        u32_at(m, obj + REC_KEY) == Some(rec.key),
        rec.blocks.len() <= u32::MAX,
        u32_at(m, obj + REC_COUNT) == Some(rec.blocks.len() as u32),
        u64_at(m, obj + REC_LIST) == Some(data),
        data != 0,
        plausible(w, data as int),
        bs.len() == rec.blocks.len(),
        apart(data as int, bs),
        forall|j: int| 0 <= j < rec.blocks.len() ==> #[trigger] block_ok(m, data as int, j, rec.blocks[j], w, bs[j]),
    ensures
        ({
            let mult = wanted_mult(cfg, families, rec.key);
            let r = record_spec(m, o, rec, count, records, cfg, families, w);
            forall|j: int| 0 <= j < rec.blocks.len() ==> u64_at(r.0, #[trigger] bs[j] + BLOCK_MIN) == Some(sat_mul(rec.blocks[j].1, mult))
                && u64_at(r.0, bs[j] + BLOCK_MAX) == Some(sat_mul(rec.blocks[j].2, mult))
        }),
{
    let mult = wanted_mult(cfg, families, rec.key);
    let o1 = Outcome { visited: (o.visited + 1) as usize, ..o };
    lemma_blocks_pass(m, o1, data as int, rec.blocks, 0, mult, w, bs);
    lemma_record_reaches_blocks(m, o, rec, count, records, cfg, families, w, obj, data);
}

// ---------------------------------------------------------------------------
// No compounding over a whole pass
// ---------------------------------------------------------------------------

/// The bounds of the block at `b` share a byte with `[a, a + n)`.
pub open spec fn hits(b: u64, a: int, n: int) -> bool {
    a < b + BLOCK_MAX + 8 && b + BLOCK_MIN < a + n
}

/// The bounds of the block at `b` share no byte with the fields the pass
/// reads to find `rec` again at `obj`.
pub open spec fn clear_of_record(b: u64, records: int, rec: RememberedView, obj: u64) -> bool {
    &&& !hits(b, records + 8 * rec.idx, 8)
    &&& !hits(b, obj + REC_KEY, 4)
    &&& !hits(b, obj + REC_COUNT, 4)
    &&& !hits(b, obj + REC_LIST, 8)
}

/// The bounds of the block at `b` share no byte with entry `l` of the list
/// at `data`, nor with the item field of the block `c` that entry names.
pub open spec fn clear_of_entry(b: u64, data: u64, l: int, c: u64) -> bool {
    &&& !hits(b, data + ENTRY * l, 12)
    &&& !hits(b, c + BLOCK_ITEM, 4)
}

/// The bounds of the blocks at `b` and `c` share no byte.
pub open spec fn bounds_apart(b: u64, c: u64) -> bool {
    b + BLOCK_MAX + 8 <= c + BLOCK_MIN || c + BLOCK_MAX + 8 <= b + BLOCK_MIN
}

/// A remembered record is found again: its slot is below the count and
/// reads `obj`, plausible and non-null, with the remembered key, a count of
/// as many blocks as were remembered, and a plausible non-null list `data`.
pub open spec fn record_found(m: Seq<SpecRegion>, rec: RememberedView, count: int, records: int, w: AddressWindow, obj: u64, data: u64) -> bool {
    &&& rec.idx < count
    &&& u64_at(m, records + 8 * rec.idx) == Some(obj)
    &&& obj != 0
    &&& plausible(w, obj as int)
    &&& u32_at(m, obj + REC_KEY) == Some(rec.key)
    &&& rec.blocks.len() <= u32::MAX
    &&& u32_at(m, obj + REC_COUNT) == Some(rec.blocks.len() as u32)
    &&& u64_at(m, obj + REC_LIST) == Some(data)
    &&& data != 0
    &&& plausible(w, data as int)
}

/// Records `i..` of the pass are found again at `objs`, with their lists at
/// `datas`, and every output block of theirs, at `bss`, checks out.
#[verifier::opaque]
pub open spec fn pass_ok(
    m: Seq<SpecRegion>,
    recs: Seq<RememberedView>,
    count: int,
    records: int,
    w: AddressWindow,
    objs: Seq<u64>,
    datas: Seq<u64>,
    bss: Seq<Seq<u64>>,
    i: int,
) -> bool {
    forall|r: int| i <= r < recs.len() ==> {
        &&& #[trigger] record_found(m, recs[r], count, records, w, objs[r], datas[r])
        &&& forall|k: int| 0 <= k < recs[r].blocks.len() ==> #[trigger] block_ok(m, datas[r] as int, k, recs[r].blocks[k], w, bss[r][k])
    }
}

/// Every block's bounds share no byte with any field the pass reads, nor
/// with any other block's bounds.
#[verifier::opaque]
pub open spec fn pass_apart(recs: Seq<RememberedView>, records: int, objs: Seq<u64>, datas: Seq<u64>, bss: Seq<Seq<u64>>) -> bool {
    &&& objs.len() == recs.len()
    &&& datas.len() == recs.len()
    &&& bss.len() == recs.len()
    &&& forall|r: int| 0 <= r < recs.len() ==> (#[trigger] bss[r]).len() == recs[r].blocks.len()
    &&& forall|r: int, k: int, q: int| 0 <= r < recs.len() && 0 <= k < bss[r].len() && 0 <= q < recs.len()
        ==> #[trigger] clear_of_record(bss[r][k], records, recs[q], objs[q])
    &&& forall|r: int, k: int, q: int, l: int|
        0 <= r < recs.len() && 0 <= k < bss[r].len() && 0 <= q < recs.len() && 0 <= l < bss[q].len()
        ==> #[trigger] clear_of_entry(bss[r][k], datas[q], l, bss[q][l])
    &&& forall|r: int, k: int, q: int, l: int|
        0 <= r < recs.len() && 0 <= k < bss[r].len() && 0 <= q < recs.len() && 0 <= l < bss[q].len() && (r != q || k != l)
        ==> #[trigger] bounds_apart(bss[r][k], bss[q][l])
}

/// Bytes outside the bounds of the blocks at `bs` are as they were.
pub open spec fn same_outside(m: Seq<SpecRegion>, n: Seq<SpecRegion>, bs: Seq<u64>) -> bool {
    forall|y: int| (forall|k: int| 0 <= k < bs.len() ==> !in_bounds_of(#[trigger] bs[k], y)) ==> #[trigger] byte_at(n, y) == byte_at(m, y)
}

proof fn lemma_same_outside(m: Seq<SpecRegion>, n: Seq<SpecRegion>, bs: Seq<u64>, a: int, len: int)
    requires
        same_outside(m, n, bs),
        forall|k: int| 0 <= k < bs.len() ==> !hits(#[trigger] bs[k], a, len),
    ensures
        forall|y: int| a <= y < a + len ==> #[trigger] byte_at(n, y) == byte_at(m, y),
{
    assert forall|y: int| a <= y < a + len implies #[trigger] byte_at(n, y) == byte_at(m, y) by {
        assert forall|k: int| 0 <= k < bs.len() implies !in_bounds_of(#[trigger] bs[k], y) by {
            assert(!hits(bs[k], a, len));
        }
    }
}

proof fn lemma_pass_head(
    m: Seq<SpecRegion>,
    recs: Seq<RememberedView>,
    count: int,
    records: int,
    w: AddressWindow,
    objs: Seq<u64>,
    datas: Seq<u64>,
    bss: Seq<Seq<u64>>,
    i: int,
)
    requires
        0 <= i < recs.len(),
        pass_ok(m, recs, count, records, w, objs, datas, bss, i),
    ensures
        record_found(m, recs[i], count, records, w, objs[i], datas[i]),
        forall|k: int| 0 <= k < recs[i].blocks.len() ==> #[trigger] block_ok(m, datas[i] as int, k, recs[i].blocks[k], w, bss[i][k]),
        pass_ok(m, recs, count, records, w, objs, datas, bss, i + 1),
{
    reveal(pass_ok);
    assert(record_found(m, recs[i], count, records, w, objs[i], datas[i]));
}

proof fn lemma_record_apart(recs: Seq<RememberedView>, records: int, objs: Seq<u64>, datas: Seq<u64>, bss: Seq<Seq<u64>>, i: int)
    requires
        0 <= i < recs.len(),
        pass_apart(recs, records, objs, datas, bss),
    ensures
        bss[i].len() == recs[i].blocks.len(),
        apart(datas[i] as int, bss[i]),
{
    reveal(pass_apart);
    let bs = bss[i];
    assert(bs.len() == recs[i].blocks.len());
    assert forall|a: int, c: int| 0 <= a < bs.len() && 0 <= c < bs.len() && a != c
        implies #[trigger] bs[a] + BLOCK_MAX + 8 <= #[trigger] bs[c] + BLOCK_MIN || bs[c] + BLOCK_MAX + 8 <= bs[a] + BLOCK_MIN by {
        assert(bounds_apart(bss[i][a], bss[i][c]));
    }
    assert forall|a: int, c: int| 0 <= a < bs.len() && 0 <= c < bs.len() implies #[trigger] entry_apart(datas[i] as int, bs[a], c) by {
        assert(clear_of_entry(bss[i][a], datas[i], c, bss[i][c]));
    }
    assert forall|a: int, c: int| 0 <= a < bs.len() && 0 <= c < bs.len()
        implies #[trigger] bs[c] + BLOCK_ITEM + 4 <= #[trigger] bs[a] + BLOCK_MIN || bs[a] + BLOCK_MAX + 8 <= bs[c] + BLOCK_ITEM by {
        assert(clear_of_entry(bss[i][a], datas[i], c, bss[i][c]));
    }
}

/// A record found again, with blocks that check out, is still so after
/// writes that stayed within the bounds of the blocks at `bs`, which share
/// no byte with what finding it reads.
#[verifier::spinoff_prover]
#[verifier::rlimit(60)]
proof fn lemma_found_kept(
    m: Seq<SpecRegion>,
    m1: Seq<SpecRegion>,
    bs: Seq<u64>,
    rec: RememberedView,
    count: int,
    records: int,
    w: AddressWindow,
    obj: u64,
    data: u64,
    cs: Seq<u64>,
)
    requires
        same_outside(m, m1, bs),
        record_found(m, rec, count, records, w, obj, data),
        forall|k: int| 0 <= k < rec.blocks.len() ==> #[trigger] block_ok(m, data as int, k, rec.blocks[k], w, cs[k]),
        forall|a: int| 0 <= a < bs.len() ==> #[trigger] clear_of_record(bs[a], records, rec, obj),
        forall|a: int, k: int| 0 <= a < bs.len() && 0 <= k < rec.blocks.len()
            ==> #[trigger] clear_of_entry(bs[a], data, k, cs[k]) && bounds_apart(bs[a], cs[k]),
    ensures
        record_found(m1, rec, count, records, w, obj, data),
        forall|k: int| 0 <= k < rec.blocks.len() ==> #[trigger] block_ok(m1, data as int, k, rec.blocks[k], w, cs[k]),
{
    assert forall|a: int| 0 <= a < bs.len() implies !hits(#[trigger] bs[a], records + 8 * rec.idx, 8) by {
        assert(clear_of_record(bs[a], records, rec, obj));
    }
    assert forall|a: int| 0 <= a < bs.len() implies !hits(#[trigger] bs[a], obj + REC_KEY, 4) by {
        assert(clear_of_record(bs[a], records, rec, obj));
    }
    assert forall|a: int| 0 <= a < bs.len() implies !hits(#[trigger] bs[a], obj + REC_COUNT, 4) by {
        assert(clear_of_record(bs[a], records, rec, obj));
    }
    assert forall|a: int| 0 <= a < bs.len() implies !hits(#[trigger] bs[a], obj + REC_LIST, 8) by {
        assert(clear_of_record(bs[a], records, rec, obj));
    }
    lemma_same_outside(m, m1, bs, records + 8 * rec.idx, 8);
    lemma_u64_same(m, m1, records + 8 * rec.idx);
    lemma_same_outside(m, m1, bs, obj + REC_KEY, 4);
    lemma_u32_same(m, m1, obj + REC_KEY);
    lemma_same_outside(m, m1, bs, obj + REC_COUNT, 4);
    lemma_u32_same(m, m1, obj + REC_COUNT);
    lemma_same_outside(m, m1, bs, obj + REC_LIST, 8);
    lemma_u64_same(m, m1, obj + REC_LIST);
    assert forall|k: int| 0 <= k < rec.blocks.len() implies #[trigger] block_ok(m1, data as int, k, rec.blocks[k], w, cs[k]) by {
        assert(block_ok(m, data as int, k, rec.blocks[k], w, cs[k]));
        let c = cs[k];
        assert forall|a: int| 0 <= a < bs.len() implies {
            &&& !hits(#[trigger] bs[a], data + ENTRY * k, 12)
            &&& !hits(bs[a], c + BLOCK_ITEM, 4)
            &&& bounds_apart(bs[a], c)
        } by {
            assert(clear_of_entry(bs[a], data, k, cs[k]) && bounds_apart(bs[a], cs[k]));
        }
        assert forall|a: int| 0 <= a < bs.len() implies !hits(#[trigger] bs[a], c + BLOCK_MIN, 8) by {
            assert(bounds_apart(bs[a], c));
        }
        assert forall|a: int| 0 <= a < bs.len() implies !hits(#[trigger] bs[a], c + BLOCK_MAX, 8) by {
            assert(bounds_apart(bs[a], c));
        }
        lemma_same_outside(m, m1, bs, data + ENTRY * k, 8);
        lemma_u64_same(m, m1, data + ENTRY * k);
        lemma_same_outside(m, m1, bs, data + ENTRY * k + ENTRY_ITEM, 4);
        lemma_u32_same(m, m1, data + ENTRY * k + ENTRY_ITEM);
        lemma_same_outside(m, m1, bs, c + BLOCK_ITEM, 4);
        lemma_u32_same(m, m1, c + BLOCK_ITEM);
        lemma_same_outside(m, m1, bs, c + BLOCK_MIN, 8);
        lemma_u64_same(m, m1, c + BLOCK_MIN);
        lemma_same_outside(m, m1, bs, c + BLOCK_MAX, 8);
        lemma_u64_same(m, m1, c + BLOCK_MAX);
    }
}

/// The later records of a pass are still found, and their blocks still
/// check out, after record `i`'s writes.
#[verifier::spinoff_prover]
proof fn lemma_later_still_ok(
    m: Seq<SpecRegion>,
    m1: Seq<SpecRegion>,
    recs: Seq<RememberedView>,
    count: int,
    records: int,
    w: AddressWindow,
    objs: Seq<u64>,
    datas: Seq<u64>,
    bss: Seq<Seq<u64>>,
    i: int,
)
    requires
        0 <= i < recs.len(),
        pass_apart(recs, records, objs, datas, bss),
        pass_ok(m, recs, count, records, w, objs, datas, bss, i + 1),
        same_outside(m, m1, bss[i]),
    ensures
        pass_ok(m1, recs, count, records, w, objs, datas, bss, i + 1),
{
    reveal(pass_ok);
    reveal(pass_apart);
    let bs = bss[i];
    assert forall|r: int| i + 1 <= r < recs.len() implies {
        &&& #[trigger] record_found(m1, recs[r], count, records, w, objs[r], datas[r])
        &&& forall|k: int| 0 <= k < recs[r].blocks.len() ==> #[trigger] block_ok(m1, datas[r] as int, k, recs[r].blocks[k], w, bss[r][k])
    } by {
        assert(record_found(m, recs[r], count, records, w, objs[r], datas[r]));
        assert forall|a: int| 0 <= a < bs.len() implies #[trigger] clear_of_record(bs[a], records, recs[r], objs[r]) by {
            assert(clear_of_record(bss[i][a], records, recs[r], objs[r]));
        }
        assert(bss[r].len() == recs[r].blocks.len());
        assert forall|a: int, k: int| 0 <= a < bs.len() && 0 <= k < recs[r].blocks.len()
            implies #[trigger] clear_of_entry(bs[a], datas[r], k, bss[r][k]) && bounds_apart(bs[a], bss[r][k]) by {
            assert(clear_of_entry(bss[i][a], datas[r], k, bss[r][k]));
            assert(bounds_apart(bss[i][a], bss[r][k]));
        }
        lemma_found_kept(m, m1, bs, recs[r], count, records, w, objs[r], datas[r], bss[r]);
    }
}

/// What the later records of a pass write leaves the bounds of record `i`'s
/// blocks as they were.
#[verifier::spinoff_prover]
proof fn lemma_later_leave_bounds(
    m1: Seq<SpecRegion>,
    res: Seq<SpecRegion>,
    recs: Seq<RememberedView>,
    records: int,
    objs: Seq<u64>,
    datas: Seq<u64>,
    bss: Seq<Seq<u64>>,
    i: int,
)
    requires
        0 <= i < recs.len(),
        pass_apart(recs, records, objs, datas, bss),
        forall|y: int| (forall|r: int, l: int| i + 1 <= r < recs.len() && 0 <= l < bss[r].len() ==> !in_bounds_of(#[trigger] bss[r][l], y))
            ==> #[trigger] byte_at(res, y) == byte_at(m1, y),
    ensures
        forall|k: int| 0 <= k < bss[i].len() ==> u64_at(res, #[trigger] bss[i][k] + BLOCK_MIN) == u64_at(m1, bss[i][k] + BLOCK_MIN)
            && u64_at(res, bss[i][k] + BLOCK_MAX) == u64_at(m1, bss[i][k] + BLOCK_MAX),
{
    reveal(pass_apart);
    assert forall|k: int| 0 <= k < bss[i].len() implies u64_at(res, #[trigger] bss[i][k] + BLOCK_MIN) == u64_at(m1, bss[i][k] + BLOCK_MIN)
        && u64_at(res, bss[i][k] + BLOCK_MAX) == u64_at(m1, bss[i][k] + BLOCK_MAX) by {
        let b = bss[i][k];
        assert forall|y: int| b + BLOCK_MIN <= y < b + BLOCK_MAX + 8 implies #[trigger] byte_at(res, y) == byte_at(m1, y) by {
            assert forall|r: int, l: int| i + 1 <= r < recs.len() && 0 <= l < bss[r].len() implies !in_bounds_of(#[trigger] bss[r][l], y) by {
                assert(bounds_apart(bss[i][k], bss[r][l]));
            }
        }
        lemma_u64_same(m1, res, b + BLOCK_MIN);
        lemma_u64_same(m1, res, b + BLOCK_MAX);
    }
}

#[verifier::spinoff_prover]
#[verifier::rlimit(50)]
proof fn lemma_records_pass(
    m: Seq<SpecRegion>,
    o: Outcome,
    recs: Seq<RememberedView>,
    i: int,
    count: int,
    records: int,
    cfg: Config,
    families: Seq<(u32, Family)>,
    w: AddressWindow,
    objs: Seq<u64>,
    datas: Seq<u64>,
    bss: Seq<Seq<u64>>,
)
    requires
        0 <= i <= recs.len(),
        !cfg.dry_run,
        pass_apart(recs, records, objs, datas, bss),
        pass_ok(m, recs, count, records, w, objs, datas, bss, i),
    ensures
        ({
            let res = records_from(m, o, recs, i, count, records, cfg, families, w).0;
            &&& forall|r: int, k: int| i <= r < recs.len() && 0 <= k < recs[r].blocks.len() ==> {
                let mult = wanted_mult(cfg, families, recs[r].key);
                &&& u64_at(res, #[trigger] bss[r][k] + BLOCK_MIN) == Some(sat_mul(recs[r].blocks[k].1, mult))
                &&& u64_at(res, bss[r][k] + BLOCK_MAX) == Some(sat_mul(recs[r].blocks[k].2, mult))
            }
            &&& forall|y: int| (forall|r: int, k: int| i <= r < recs.len() && 0 <= k < bss[r].len() ==> !in_bounds_of(#[trigger] bss[r][k], y))
                ==> #[trigger] byte_at(res, y) == byte_at(m, y)
        }),
    decreases recs.len() - i,
{
    if i < recs.len() {
        let rec = recs[i];
        let bs = bss[i];
        let data = datas[i];
        lemma_pass_head(m, recs, count, records, w, objs, datas, bss, i);
        lemma_record_apart(recs, records, objs, datas, bss, i);
        let mult = wanted_mult(cfg, families, rec.key);
        let o1 = Outcome { visited: (o.visited + 1) as usize, ..o };
        lemma_blocks_pass(m, o1, data as int, rec.blocks, 0, mult, w, bs);
        lemma_record_reaches_blocks(m, o, rec, count, records, cfg, families, w, objs[i], data);
        let step = record_spec(m, o, rec, count, records, cfg, families, w);
        let m1 = step.0;
        assert(same_outside(m, m1, bs));
        lemma_later_still_ok(m, m1, recs, count, records, w, objs, datas, bss, i);
        lemma_records_pass(m1, step.1, recs, i + 1, count, records, cfg, families, w, objs, datas, bss);
        let res = records_from(m, o, recs, i, count, records, cfg, families, w).0;
        assert(res == records_from(m1, step.1, recs, i + 1, count, records, cfg, families, w).0);
        lemma_later_leave_bounds(m1, res, recs, records, objs, datas, bss, i);
        assert forall|r: int, k: int| i <= r < recs.len() && 0 <= k < recs[r].blocks.len() implies {
            let mult = wanted_mult(cfg, families, recs[r].key);
            &&& u64_at(res, #[trigger] bss[r][k] + BLOCK_MIN) == Some(sat_mul(recs[r].blocks[k].1, mult))
            &&& u64_at(res, bss[r][k] + BLOCK_MAX) == Some(sat_mul(recs[r].blocks[k].2, mult))
        } by {
            if r == i {
                assert(u64_at(m1, bs[k] + BLOCK_MIN) == Some(sat_mul(rec.blocks[k].1, mult)));
            }
        }
        assert forall|y: int| (forall|r: int, k: int| i <= r < recs.len() && 0 <= k < bss[r].len() ==> !in_bounds_of(#[trigger] bss[r][k], y))
            implies #[trigger] byte_at(res, y) == byte_at(m, y) by {
            assert forall|j: int| 0 <= j < rec.blocks.len() implies !in_bounds_of(#[trigger] bs[j], y) by {
                assert(!in_bounds_of(bss[i][j], y));
            }
        }
    }
}

/// No compounding over a whole pass: when every remembered record is found
/// again, every one of their output blocks checks out, no block's bounds
/// share a byte with another's or with any field the pass reads, and the
/// pass is not a dry run, then after the pass every block holds its
/// remembered vanilla bounds times the multiplier the config wants now for
/// its record's family, whatever the blocks held before.
pub proof fn lemma_pass_is_vanilla_times_current(
    m: Seq<SpecRegion>,
    mgr: usize,
    recs: Seq<RememberedView>,
    cfg: Config,
    families: Seq<(u32, Family)>,
    w: AddressWindow,
    count: u32,
    records: u64,
    objs: Seq<u64>,
    datas: Seq<u64>,
    bss: Seq<Seq<u64>>,
)
    requires
        mgr != 0,
        plausible(w, mgr as int),
        u32_at(m, mgr + MGR_COUNT) == Some(count),
        u64_at(m, mgr + MGR_RECORDS) == Some(records),
        plausible(w, records as int),
        !cfg.dry_run,
        pass_apart(recs, records as int, objs, datas, bss),
        pass_ok(m, recs, count as int, records as int, w, objs, datas, bss, 0),
    ensures
        forall|r: int, k: int| 0 <= r < recs.len() && 0 <= k < recs[r].blocks.len() ==> {
            let res = reapply_spec(m, mgr, recs, cfg, families, w).0;
            let mult = wanted_mult(cfg, families, recs[r].key);
            &&& u64_at(res, #[trigger] bss[r][k] + BLOCK_MIN) == Some(sat_mul(recs[r].blocks[k].1, mult))
            &&& u64_at(res, bss[r][k] + BLOCK_MAX) == Some(sat_mul(recs[r].blocks[k].2, mult))
        },
{
    lemma_records_pass(m, fresh(true), recs, 0, count as int, records as int, cfg, families, w, objs, datas, bss);
}

} // verus!
