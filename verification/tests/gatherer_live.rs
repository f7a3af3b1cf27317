use desert_tooling::gatherer::config::{Config, Family};
use desert_tooling::gatherer::hook::{load_action, Counters, LoadAction, NameWarnings, WARN_SLOTS};
use desert_tooling::gatherer::load::{record_bytes, RecordRefusal};
use desert_tooling::gatherer::reapply::{reapply, AddressWindow};
use desert_tooling::gatherer::remember::Remembered;
use desert_tooling::looter::memory::{Memory, Region};

const HEAP: usize = 0x2000_0000;
const MGR: usize = HEAP;
const RECORDS: usize = HEAP + 0x100;
const OBJ: usize = HEAP + 0x200;
const DATA: usize = HEAP + 0x800;
const B0: usize = HEAP + 0x900;
const B1: usize = HEAP + 0x980;
const WINDOW: AddressWindow = AddressWindow { lo: 0x1_0000, hi: 0x7FFF_0000_0000 };

fn put(buf: &mut [u8], at: usize, bytes: &[u8]) {
    buf[at - HEAP..at - HEAP + bytes.len()].copy_from_slice(bytes);
}

fn p64(v: usize) -> [u8; 8] {
    (v as u64).to_le_bytes()
}

/// A record manager with two slots: record 0 parsed (key 1234, two blocks
/// of items 77 and 88 at 3-5 and 2-4), record 1 not loaded.
fn parsed() -> Memory {
    let mut heap = vec![0u8; 0x1000];
    put(&mut heap, MGR + 0x08, &2u32.to_le_bytes());
    put(&mut heap, MGR + 0x58, &p64(RECORDS));
    put(&mut heap, RECORDS, &p64(OBJ));
    put(&mut heap, OBJ + 0x08, &1234u32.to_le_bytes());
    put(&mut heap, OBJ + 0x278, &p64(DATA));
    put(&mut heap, OBJ + 0x280, &2u32.to_le_bytes());
    for (i, (block, item, min, max)) in [(B0, 77u32, 3u64, 5u64), (B1, 88, 2, 4)].iter().enumerate() {
        put(&mut heap, DATA + 16 * i, &p64(*block));
        put(&mut heap, block + 0x20, &min.to_le_bytes());
        put(&mut heap, block + 0x28, &max.to_le_bytes());
        put(&mut heap, block + 0x68, &item.to_le_bytes());
    }
    Memory { regions: vec![Region { base: HEAP, bytes: heap }] }
}

fn remembered() -> Vec<Remembered> {
    vec![
        Remembered { key: 1234, idx: 0, blocks: vec![(77, 3, 5), (88, 2, 4)] },
        Remembered { key: 999, idx: 1, blocks: vec![(1, 1, 1)] },
        Remembered { key: 5, idx: 7, blocks: vec![(1, 1, 1)] },
    ]
}

fn config(mining: u32, dry_run: bool) -> Config {
    Config { enabled: true, dry_run, mining, ..Config::default() }
}

fn yields(mem: &Memory) -> [Option<u64>; 4] {
    [mem.read_u64(B0 + 0x20), mem.read_u64(B0 + 0x28), mem.read_u64(B1 + 0x20), mem.read_u64(B1 + 0x28)]
}

#[test]
fn a_write_reads_back_and_touches_nothing_else() {
    let mut mem = parsed();
    assert!(mem.write_u64(B0 + 0x20, 0x0102_0304_0506_0708));
    assert_eq!(mem.read_u64(B0 + 0x20), Some(0x0102_0304_0506_0708));
    assert_eq!(mem.read_bytes(B0 + 0x20, 2), Some(vec![0x08, 0x07]));
    assert_eq!(mem.read_u64(B0 + 0x28), Some(5));
    assert!(!mem.write_u64(HEAP + 0xFFC, 1), "the last four bytes would fall off the region");
    assert_eq!(mem.read_bytes(HEAP + 0xFFC, 4), Some(vec![0, 0, 0, 0]));
    assert_eq!(mem.read_bytes(HEAP + 0xFFC, 5), None);
}

#[test]
fn reapply_writes_the_remembered_yields_times_the_multiplier() {
    let mut mem = parsed();
    let mut counters = Counters::new();
    let families = [(1234, Family::Mining)];
    let out = reapply(&mut mem, &mut counters, MGR, &remembered(), &config(2, false), &families, WINDOW);
    assert_eq!(yields(&mem), [Some(6), Some(10), Some(4), Some(8)]);
    assert_eq!((out.visited, out.rewritten, out.unchanged, out.skipped, out.scalars), (3, 1, 0, 2, 4));
    assert_eq!((out.skip_index, out.skip_unloaded), (1, 1));
    assert_eq!(out.summary(), "1 records rewritten, 0 unchanged, 2 skipped; 4 scalars written");
    assert_eq!(counters.counters(), (0, 0, 4));

    // The same multiplier again: nothing to write, nothing compounds.
    let again = reapply(&mut mem, &mut counters, MGR, &remembered(), &config(2, false), &families, WINDOW);
    assert_eq!((again.rewritten, again.unchanged, again.scalars), (0, 1, 0));
    assert_eq!(yields(&mem), [Some(6), Some(10), Some(4), Some(8)]);

    // Back to vanilla is remembered × 1, not a division of what is there.
    reapply(&mut mem, &mut counters, MGR, &remembered(), &config(1, false), &families, WINDOW);
    assert_eq!(yields(&mem), [Some(3), Some(5), Some(2), Some(4)]);
}

#[test]
fn a_dry_run_counts_and_writes_nothing() {
    let mut mem = parsed();
    let mut counters = Counters::new();
    let out = reapply(&mut mem, &mut counters, MGR, &remembered(), &config(3, true), &[(1234, Family::Mining)], WINDOW);
    assert_eq!((out.rewritten, out.scalars), (1, 4));
    assert_eq!(yields(&mem), [Some(3), Some(5), Some(2), Some(4)]);
    assert_eq!(counters.counters(), (0, 0, 0));
}

#[test]
fn an_unknown_key_or_a_disabled_hook_goes_back_to_vanilla() {
    let mut mem = parsed();
    let mut counters = Counters::new();
    let out = reapply(&mut mem, &mut counters, MGR, &remembered(), &config(4, false), &[], WINDOW);
    assert_eq!((out.rewritten, out.unchanged), (0, 1), "no family: multiplier 1, already vanilla");
    let off = Config { enabled: false, ..config(4, false) };
    let out = reapply(&mut mem, &mut counters, MGR, &remembered(), &off, &[(1234, Family::Mining)], WINDOW);
    assert_eq!((out.rewritten, out.unchanged), (0, 1));
}

#[test]
fn a_moved_layout_is_skipped_and_counted() {
    let mut mem = parsed();
    let mut counters = Counters::new();
    let moved = vec![Remembered { key: 1234, idx: 0, blocks: vec![(77, 3, 5), (99, 2, 4)] }];
    let out = reapply(&mut mem, &mut counters, MGR, &moved, &config(2, false), &[(1234, Family::Mining)], WINDOW);
    assert_eq!((out.rewritten, out.blocks_skipped, out.block_item, out.scalars), (1, 1, 1, 2));
    assert_eq!(yields(&mem), [Some(6), Some(10), Some(2), Some(4)], "only the block whose item matched");
    assert!(out.warning().is_some());
    let wrong_key = vec![Remembered { key: 1, idx: 0, blocks: vec![(77, 3, 5), (88, 2, 4)] }];
    let out = reapply(&mut mem, &mut counters, MGR, &wrong_key, &config(2, false), &[], WINDOW);
    assert_eq!(out.skip_key, 1);
    let short = vec![Remembered { key: 1234, idx: 0, blocks: vec![(77, 3, 5)] }];
    let out = reapply(&mut mem, &mut counters, MGR, &short, &config(2, false), &[], WINDOW);
    assert_eq!(out.skip_count, 1);
}

#[test]
fn no_manager_or_an_implausible_one_does_nothing() {
    let mut mem = parsed();
    let mut counters = Counters::new();
    let out = reapply(&mut mem, &mut counters, 0, &remembered(), &config(2, false), &[], WINDOW);
    assert!(!out.manager_known);
    assert_eq!(out.visited, 0);
    let out = reapply(&mut mem, &mut counters, 0x10, &remembered(), &config(2, false), &[], WINDOW);
    assert!(out.manager_known && out.manager_unreadable);
    assert_eq!(
        out.warning().as_deref(),
        Some("the record manager is unreadable; nothing was re-applied")
    );
    assert_eq!(yields(&mem), [Some(3), Some(5), Some(2), Some(4)]);
}

const LMGR: usize = HEAP + 0x300;
const OFFSETS: usize = HEAP + 0x400;
const LRECORDS: usize = HEAP + 0x500;
const STREAM: usize = HEAP + 0x600;
const BUF: usize = HEAP + 0x700;

/// A loader about to parse record 0 of two: the offsets table puts it at
/// 0x10 and the next at 0x18, and the stream is parked at 0x10.
fn loading(cursor: u32) -> Memory {
    let mut heap = vec![0u8; 0x1000];
    put(&mut heap, LMGR + 0x08, &2u32.to_le_bytes());
    put(&mut heap, LMGR + 0x28, &p64(OFFSETS));
    put(&mut heap, LMGR + 0x58, &p64(LRECORDS));
    put(&mut heap, OFFSETS + 4, &0x10u32.to_le_bytes());
    put(&mut heap, OFFSETS + 12, &0x18u32.to_le_bytes());
    put(&mut heap, STREAM + 0x10, &p64(BUF));
    put(&mut heap, STREAM + 0x18, &0x20u32.to_le_bytes());
    put(&mut heap, STREAM + 0x1C, &cursor.to_le_bytes());
    put(&mut heap, BUF + 0x10, b"ABCDEFGHIJKLMNOP");
    Memory { regions: vec![Region { base: HEAP, bytes: heap }] }
}

#[test]
fn the_record_under_the_cursor_is_read_up_to_the_next_one() {
    let mem = loading(0x10);
    assert_eq!(record_bytes(&mem, LMGR, 0, STREAM), Ok((BUF + 0x10, b"ABCDEFGH".to_vec())));
    assert_eq!(record_bytes(&mem, LMGR, 2, STREAM), Err(RecordRefusal::OutOfRange));
    assert_eq!(
        record_bytes(&mem, LMGR, 1, STREAM),
        Err(RecordRefusal::CursorMismatch { cursor: 0x10, expected: 0x18 })
    );
    assert_eq!(record_bytes(&mem, HEAP + 0xFFA, 0, STREAM), Err(RecordRefusal::Unreadable));
}

#[test]
fn the_last_record_runs_to_the_end_of_the_stream() {
    let mem = loading(0x18);
    assert_eq!(record_bytes(&mem, LMGR, 1, STREAM), Ok((BUF + 0x18, b"IJKLMNOP".to_vec())));
    let mem = loading(0x20);
    assert_eq!(record_bytes(&mem, LMGR, 1, STREAM), Err(RecordRefusal::CursorPastSize));
}

#[test]
fn a_loaded_record_is_left_alone() {
    let mut mem = loading(0x10);
    assert!(mem.write_u64(LRECORDS, 0x2000_0800));
    assert_eq!(record_bytes(&mem, LMGR, 0, STREAM), Err(RecordRefusal::Loaded));
}

#[test]
fn a_name_mismatch_is_warned_about_once_per_key() {
    let mut w = NameWarnings::new();
    assert!(w.first_warning_for(7));
    assert!(!w.first_warning_for(7));
    assert!(w.first_warning_for(7 + WARN_SLOTS as u32), "a key probing past an occupied slot");
    assert!(!w.first_warning_for(7 + WARN_SLOTS as u32));
    assert!(!w.first_warning_for(0), "key 0 is never warned about");
}

#[test]
fn a_full_warning_table_stops_reporting() {
    let mut w = NameWarnings::new();
    for k in 1..=WARN_SLOTS as u32 {
        assert!(w.first_warning_for(k));
    }
    assert!(!w.first_warning_for(100_000), "no free slot left");
    assert!(!w.first_warning_for(3));
}

#[test]
fn a_loaded_record_is_remembered_always_and_written_only_when_multiplied() {
    let on = config(3, false);
    assert_eq!(load_action(None, &on, false), LoadAction::NotGather);
    assert_eq!(load_action(Some(Family::Mining), &on, false), LoadAction::Write(3));
    assert_eq!(load_action(Some(Family::Foraging), &on, false), LoadAction::Remember, "1x writes nothing");
    assert_eq!(load_action(Some(Family::Mining), &config(3, true), false), LoadAction::DryRun(3));
    let off = Config { enabled: false, ..on };
    assert_eq!(load_action(Some(Family::Mining), &off, false), LoadAction::Remember, "Enabled=0 still remembers");
    assert_eq!(
        load_action(Some(Family::Mining), &on, true),
        LoadAction::Remember,
        "a record with no output lists is remembered and left alone"
    );
    assert_eq!(load_action(None, &on, true), LoadAction::NotGather);
}
