use desert_tooling::looter::actors::{InventorySlot, InventoryTab};
use desert_tooling::looter::dump::{dump_item_records, dump_record_bytes, dump_table_records, hexascii, PickFrom, ITEM_RECORD_LINES};
use desert_tooling::looter::events::{Descriptor, Events, PickupRequest};
use desert_tooling::looter::gatherer::{
    merge_yields, ready_to_send, BagNote, GatherSettings, Gatherer, NotReady, Refusal, ReviewNote, StackNote,
    MAX_CONSECUTIVE_FAILURES, STALE_REQUEST_MS,
};
use desert_tooling::looter::memory::{MainModule, Memory, Region};
use desert_tooling::looter::payload::PickupMode;
use desert_tooling::looter::tables::{gimmick_record_drops, DropLimits, DropOutput, TableSlots};

const MODULE: usize = 0x1000_0000;
const HEAP: usize = 0x2000_0000;
const GMGR: usize = HEAP;
const GARR: usize = HEAP + 0x100;
const GREC0: usize = HEAP + 0x200;
const GREC1: usize = HEAP + 0x600;
const DATA: usize = HEAP + 0x800;
const IMGR: usize = HEAP + 0x1000;
const IARR: usize = HEAP + 0x1100;
const IREC: usize = HEAP + 0x1200;
const TAB: usize = HEAP + 0x2000;
const SLOTS: usize = HEAP + 0x2100;

const LIMITS: DropLimits = DropLimits { max_count: 16, max_qty: 1000 };
const TABLES: TableSlots = TableSlots { item: Some(0x108), gimmick: Some(0x100) };

fn put(buf: &mut [u8], base: usize, at: usize, bytes: &[u8]) {
    buf[at - base..at - base + bytes.len()].copy_from_slice(bytes);
}

fn p64(v: usize) -> [u8; 8] {
    (v as u64).to_le_bytes()
}

/// Two gimmick records, the first declaring three output blocks (items 111,
/// 222, 111) and the second none; three item records keyed 999, 111, 222;
/// and a three-slot bag tab holding 10 of item record 1 and 7 of record 2.
fn world() -> (Memory, MainModule) {
    let mut module = vec![0u8; 0x1000];
    put(&mut module, MODULE, MODULE + 0x100, &p64(GMGR));
    put(&mut module, MODULE, MODULE + 0x108, &p64(IMGR));

    let mut heap = vec![0u8; 0x4000];
    put(&mut heap, HEAP, GMGR + 8, &2u32.to_le_bytes());
    put(&mut heap, HEAP, GMGR + 0x58, &p64(GARR));
    put(&mut heap, HEAP, GARR, &p64(GREC0));
    put(&mut heap, HEAP, GARR + 8, &p64(GREC1));
    put(&mut heap, HEAP, GREC0 + 0x278, &p64(DATA));
    put(&mut heap, HEAP, GREC0 + 0x280, &3u32.to_le_bytes());
    put(&mut heap, HEAP, GREC0 + 0x284, &4u32.to_le_bytes());
    for (i, (item, min, max)) in [(111u32, 1u64, 3u64), (222, 2, 5), (111, 1, 4)].iter().enumerate() {
        let block = HEAP + 0x900 + 0x80 * i;
        put(&mut heap, HEAP, DATA + 16 * i, &p64(block));
        put(&mut heap, HEAP, DATA + 16 * i + 8, &item.to_le_bytes());
        put(&mut heap, HEAP, block + 0x20, &min.to_le_bytes());
        put(&mut heap, HEAP, block + 0x28, &max.to_le_bytes());
        put(&mut heap, HEAP, block + 0x6C, &item.to_le_bytes());
    }

    put(&mut heap, HEAP, IMGR + 8, &3u32.to_le_bytes());
    put(&mut heap, HEAP, IMGR + 0x58, &p64(IARR));
    for (i, key) in [999u32, 111, 222].iter().enumerate() {
        put(&mut heap, HEAP, IARR + 8 * i, &p64(IREC + 0x40 * i));
        put(&mut heap, HEAP, IREC + 0x40 * i, &key.to_le_bytes());
    }

    put(&mut heap, HEAP, TAB, &p64(SLOTS));
    put(&mut heap, HEAP, TAB + 8, &3i16.to_le_bytes());
    for (i, (idx, count)) in [(1u16, 10i64), (2, 7), (0xFFFF, 0)].iter().enumerate() {
        put(&mut heap, HEAP, SLOTS + 200 * i + 8, &idx.to_le_bytes());
        put(&mut heap, HEAP, SLOTS + 200 * i + 0x10, &count.to_le_bytes());
    }
    let mem = Memory {
        regions: vec![Region { base: MODULE, bytes: module }, Region { base: HEAP, bytes: heap }],
    };
    (mem, MainModule { base: MODULE, size: 0x1000 })
}

fn settings(stack_limit: u32) -> GatherSettings {
    GatherSettings {
        auto: true,
        unarmed: false,
        items: true,
        gear: false,
        bag_tab: None,
        stack_limit,
        interval_ms: 1000,
        cooldown_ms: 5000,
    }
}

const FULL: InventoryTab = InventoryTab { ptr: TAB, id: 1, used: 3, max: 3 };
const ROOMY: InventoryTab = InventoryTab { ptr: TAB, id: 1, used: 2, max: 3 };

fn request(eid: u32) -> PickupRequest {
    PickupRequest {
        target_eid: eid,
        record: 0,
        mode: PickupMode::Gather,
        target_actor: 0,
        player_actor: 0,
        player_eid: 0,
        route: 0,
        flag: 0,
        cat: 0,
    }
}

#[test]
fn a_record_declares_its_output_blocks_in_order() {
    let (mem, _) = world();
    assert_eq!(
        gimmick_record_drops(&mem, GREC0, LIMITS),
        Some(vec![
            DropOutput { item: 111, min: 1, max: 3 },
            DropOutput { item: 222, min: 2, max: 5 },
            DropOutput { item: 111, min: 1, max: 4 },
        ])
    );
    assert_eq!(gimmick_record_drops(&mem, GREC1, LIMITS), None, "no output vector");
    assert_eq!(
        gimmick_record_drops(&mem, GREC0, DropLimits { max_count: 16, max_qty: 4 }),
        None,
        "one block declares more than the limit: the whole record is refused"
    );
    assert_eq!(gimmick_record_drops(&mem, GREC0, DropLimits { max_count: 2, max_qty: 1000 }), None);
}

#[test]
fn yields_merge_per_item_to_the_largest_max() {
    let drops = [
        DropOutput { item: 111, min: 1, max: 3 },
        DropOutput { item: 222, min: 2, max: 5 },
        DropOutput { item: 111, min: 1, max: 4 },
    ];
    assert_eq!(merge_yields(&drops, None), vec![(111, 4), (222, 5)]);
    assert_eq!(merge_yields(&drops, Some((222, 9))), vec![(111, 4), (222, 9)], "a learned pair raises");
    assert_eq!(merge_yields(&drops, Some((222, 1))), vec![(111, 4), (222, 5)], "and never lowers");
    assert_eq!(merge_yields(&drops, Some((333, 2))), vec![(111, 4), (222, 5), (333, 2)]);
    let huge = [DropOutput { item: 1, min: 1, max: u64::MAX }];
    assert_eq!(merge_yields(&huge, None), vec![(1, u32::MAX)]);
}

#[test]
fn toggling_flips_auto_mode() {
    let mut g = Gatherer::new(settings(100));
    assert!(g.auto);
    assert!(!g.toggle());
    assert!(g.toggle());
    assert_eq!(g.filters(), (false, true, false));
    assert_eq!((g.sent, g.gathered, g.outstanding()), (0, 0, 0));
}

#[test]
fn item_indices_are_found_by_key_and_cached() {
    let (mem, md) = world();
    let mut g = Gatherer::new(settings(100));
    assert_eq!(g.item_index(&mem, &md, &TABLES, 222), Some(2));
    assert_eq!(g.item_index(&mem, &md, &TABLES, 111), Some(1));
    assert_eq!(g.item_index(&mem, &md, &TABLES, 5), None);
    // The cache answers even once the table no longer reads.
    let empty = Memory { regions: vec![] };
    assert_eq!(g.item_index(&empty, &md, &TABLES, 222), Some(2));
    assert_eq!(g.item_index(&empty, &md, &TABLES, 5), None);
}

#[test]
fn a_nodes_yields_come_from_its_record_or_from_what_was_learned() {
    let (mem, md) = world();
    let mut e = Events::new();
    let mut g = Gatherer::new(settings(100));
    let (y, declared) = g.node_yields(&mem, &md, &TABLES, LIMITS, &e, 0);
    assert_eq!(y, Ok(vec![(111, 4), (222, 5)]));
    assert_eq!(declared.map(|d| d.len()), Some(3), "declared outputs come out the first time");
    let (_, declared) = g.node_yields(&mem, &md, &TABLES, LIMITS, &e, 0);
    assert_eq!(declared, None, "and only then");
    assert_eq!(g.node_yields(&mem, &md, &TABLES, LIMITS, &e, 1).0, Err(Refusal::YieldUnknown));
    e.load_yields(vec![(1, 333, 6), (0, 222, 8)]);
    assert_eq!(g.node_yields(&mem, &md, &TABLES, LIMITS, &e, 1).0, Ok(vec![(333, 6)]));
    assert_eq!(g.node_yields(&mem, &md, &TABLES, LIMITS, &e, 0).0, Ok(vec![(111, 4), (222, 8)]));
}

#[test]
fn a_bag_with_room_or_an_unreadable_inventory_lets_the_send_go() {
    let (mem, md) = world();
    let e = Events::new();
    let mut g = Gatherer::new(settings(100));
    let c = g.bag_has_room(&mem, &md, &TABLES, LIMITS, &e, None, PickupMode::Gather, 0);
    assert!(c.send);
    assert!(matches!(c.note, Some(BagNote::InventoryUnreadable)));
    let c = g.bag_has_room(&mem, &md, &TABLES, LIMITS, &e, Some(&[]), PickupMode::Gather, 0);
    assert!(c.send);
    assert!(matches!(c.note, Some(BagNote::NoBagTab)));
    let c = g.bag_has_room(&mem, &md, &TABLES, LIMITS, &e, Some(&[ROOMY]), PickupMode::Item, 0);
    assert!(c.send);
    assert!(c.note.is_none());
}

#[test]
fn a_full_bag_takes_a_gather_whose_every_yield_stacks() {
    let (mem, md) = world();
    let e = Events::new();
    let mut g = Gatherer::new(settings(100));
    let c = g.bag_has_room(&mem, &md, &TABLES, LIMITS, &e, Some(&[FULL]), PickupMode::Gather, 0);
    assert!(c.send);
    match c.note {
        Some(BagNote::Stacks { tab, notes }) => {
            assert_eq!(tab, FULL);
            assert_eq!(
                notes,
                vec![StackNote { item: 111, before: 10, after: 14 }, StackNote { item: 222, before: 7, after: 12 }]
            );
        },
        other => panic!("expected stacking, got {:?}", other),
    }
    assert_eq!(c.declared.map(|d| d.len()), Some(3));
}

#[test]
fn a_full_bag_refusal_is_reported_once_until_the_reason_changes() {
    let (mem, md) = world();
    let e = Events::new();
    let mut g = Gatherer::new(settings(12));
    let c = g.bag_has_room(&mem, &md, &TABLES, LIMITS, &e, Some(&[FULL]), PickupMode::Gather, 0);
    assert!(!c.send);
    match c.note {
        Some(BagNote::Refused { reason, .. }) => {
            assert_eq!(reason, Refusal::PastLimit { item: 111, stack: 10, add: 4, limit: 12 })
        },
        other => panic!("expected a refusal, got {:?}", other),
    }
    let c = g.bag_has_room(&mem, &md, &TABLES, LIMITS, &e, Some(&[FULL]), PickupMode::Gather, 0);
    assert!(!c.send);
    assert!(c.note.is_none(), "the same reason is not reported twice");
    let c = g.bag_has_room(&mem, &md, &TABLES, LIMITS, &e, Some(&[FULL]), PickupMode::Item, 0);
    assert!(!c.send);
    assert!(matches!(c.note, Some(BagNote::Refused { reason: Refusal::GroundItem, .. })));
    let c = g.bag_has_room(&mem, &md, &TABLES, LIMITS, &e, Some(&[FULL]), PickupMode::Gather, 1);
    assert!(matches!(c.note, Some(BagNote::Refused { reason: Refusal::YieldUnknown, .. })));
    let c = g.bag_has_room(&mem, &md, &TABLES, LIMITS, &e, Some(&[ROOMY]), PickupMode::Gather, 0);
    assert!(c.send);
    assert!(matches!(c.note, Some(BagNote::RoomAgain { .. })), "room again is said once");
    let c = g.bag_has_room(&mem, &md, &TABLES, LIMITS, &e, Some(&[ROOMY]), PickupMode::Gather, 0);
    assert!(c.note.is_none());
}

#[test]
fn a_single_or_a_missing_stack_refuses() {
    let (mem, md) = world();
    let mut e = Events::new();
    let mut g = Gatherer::new(settings(100));
    e.load_yields(vec![(1, 999, 1)]);
    let c = g.bag_has_room(&mem, &md, &TABLES, LIMITS, &e, Some(&[FULL]), PickupMode::Gather, 1);
    assert!(matches!(c.note, Some(BagNote::Refused { reason: Refusal::NoStack { item: 999 }, .. })));
    let mut e = Events::new();
    e.load_yields(vec![(1, 4242, 1)]);
    let c = g.bag_has_room(&mem, &md, &TABLES, LIMITS, &e, Some(&[FULL]), PickupMode::Gather, 1);
    assert!(matches!(c.note, Some(BagNote::Refused { reason: Refusal::NotInItemTable { item: 4242 }, .. })));
}

fn ready_events() -> Events {
    let mut e = Events::new();
    e.set_descriptor(Descriptor { id: 7, ptr: 0x1234, payload_size: 14, dispatch: 0, name: "d".to_string() });
    e.on_sweep_call(42);
    e
}

#[test]
fn a_send_needs_a_descriptor_a_sweep_and_no_pending_request() {
    let mut e = Events::new();
    assert_eq!(ready_to_send(&e), Err(NotReady::NoDescriptor));
    e.set_descriptor(Descriptor { id: 7, ptr: 0x1234, payload_size: 14, dispatch: 0, name: "d".to_string() });
    assert_eq!(ready_to_send(&e), Err(NotReady::NoSweep));
    e.on_sweep_call(42);
    assert_eq!(ready_to_send(&e), Ok(()));
    assert!(e.request(request(1), 0));
    assert_eq!(ready_to_send(&e), Err(NotReady::Pending));
}

#[test]
fn a_parked_send_is_waited_on_and_a_stale_one_is_forgotten() {
    let mut e = ready_events();
    let mut g = Gatherer::new(settings(100));
    assert!(g.send(&mut e, request(5), "ore".to_string(), 1000));
    assert!(!g.send(&mut e, request(6), "wood".to_string(), 1001), "one pending at a time");
    assert_eq!((g.sent, g.outstanding()), (1, 1));
    assert!(g.skips(&e, 5));
    assert!(!g.skips(&e, 6));
    assert_eq!(g.reap_stale(&mut e, 1000 + STALE_REQUEST_MS), None);
    assert_eq!(g.reap_stale(&mut e, 1001 + STALE_REQUEST_MS).map(|r| r.target_eid), Some(5));
    assert_eq!(g.outstanding(), 0);
    assert!(!e.has_pending());
}

#[test]
fn a_review_counts_what_went_and_frees_what_stayed() {
    let mut e = ready_events();
    let mut g = Gatherer::new(settings(100));
    for (eid, at) in [(1u32, 0u64), (2, 0), (3, 0), (4, 9000)] {
        assert!(g.send(&mut e, request(eid), format!("n{eid}"), at));
        e.take_request();
    }
    e.mark_owned(3);
    // 1 went; 2 stands past its cooldown; 3 was refused by the steal check;
    // 4 stands within its cooldown.
    let notes = g.review(&[2, 3, 4], &e, 10_000);
    assert_eq!(notes.len(), 2);
    assert!(matches!(&notes[0], ReviewNote::Gone { eid: 1, age_ms: 10_000, gathered: 1, sent: 4, .. }));
    assert!(matches!(&notes[1], ReviewNote::StillThere { eid: 2, failures: 1, .. }));
    assert_eq!((g.gathered, g.outstanding()), (1, 1));
    assert!(g.skips(&e, 4));
    assert!(!g.skips(&e, 2));
}

#[test]
fn refusals_in_a_row_turn_auto_mode_off() {
    let mut e = ready_events();
    let mut g = Gatherer::new(settings(100));
    let mut off = false;
    for eid in 1..=MAX_CONSECUTIVE_FAILURES {
        assert!(g.send(&mut e, request(eid), "ore".to_string(), 0));
        e.take_request();
        let notes = g.review(&[eid], &e, 6000);
        off = notes.iter().any(|n| matches!(n, ReviewNote::AutoOff));
        assert_eq!(off, eid == MAX_CONSECUTIVE_FAILURES);
    }
    assert!(off);
    assert!(!g.auto);
}

#[test]
fn sends_and_reviews_keep_their_own_pace() {
    let mut e = ready_events();
    let mut g = Gatherer::new(settings(100));
    assert_eq!(g.due(0), (true, false), "nothing waited on, nothing to review");
    assert!(g.send(&mut e, request(1), "ore".to_string(), 0));
    assert_eq!(g.due(999), (false, true));
    assert_eq!(g.due(1000), (true, true));
    g.note_review(1000);
    assert_eq!(g.due(1050), (true, false));
    assert_eq!(g.due(1100), (true, true));
    g.keep_cadence(2000);
    assert_eq!(g.due(2500).0, false);
    assert!(g.idle_log_due(2500));
    assert!(!g.idle_log_due(30_000));
    assert!(g.idle_log_due(32_501));
    g.toggle();
    assert_eq!(g.due(10_000).0, false, "auto off never sends");
}

#[test]
fn a_table_dump_shows_the_manager_and_its_first_records() {
    let (mem, md) = world();
    let d = dump_table_records(&mem, &md, 0x100, 3).expect("the gimmick table reads");
    assert_eq!((d.manager, d.count, d.records), (GMGR, 2, GARR));
    assert!(d.words.starts_with("0 2 "));
    let rows: Vec<(usize, usize)> = d.rows.iter().map(|r| (r.index, r.rec)).collect();
    assert_eq!(rows, vec![(0, GREC0), (1, GREC1)], "the third slot is empty");
    assert_eq!(d.rows[0].name, None);
    assert!(dump_table_records(&mem, &md, 0x800, 1).is_none(), "no manager behind that slot");
    let lines = dump_record_bytes(&mem, &md, 0x100, 0).expect("record 0 reads");
    assert_eq!(lines.len(), 4);
    assert_eq!(lines[0], format!("{}|{}|", "00 ".repeat(32), ".".repeat(32)));
    assert_eq!(dump_record_bytes(&mem, &md, 0x100, 2), None);
}

#[test]
fn item_records_are_dumped_for_four_bag_stacks_and_two_stacks_of_three_tabs() {
    let (mem, md) = world();
    let bag = vec![
        InventorySlot { slot: 0, item_index: 1, count: 10 },
        InventorySlot { slot: 1, item_index: 2, count: 7 },
        InventorySlot { slot: 5, item_index: 9, count: 1 },
    ];
    let tabs = vec![
        FULL,
        InventoryTab { ptr: TAB, id: 2, used: 2, max: 3 },
        InventoryTab { ptr: HEAP + 0x3F00, id: 3, used: 1, max: 3 },
        InventoryTab { ptr: TAB, id: 4, used: 0, max: 3 },
        InventoryTab { ptr: TAB, id: 5, used: 1, max: 3 },
        InventoryTab { ptr: TAB, id: 6, used: 1, max: 3 },
    ];
    let dumps = dump_item_records(&mem, &md, &TABLES, &tabs, &bag);
    let seen: Vec<_> = dumps.iter().map(|d| (d.from, d.slot.slot, d.rec)).collect();
    assert_eq!(
        seen,
        vec![
            (PickFrom::Bag, 0, IREC + 0x40),
            (PickFrom::Bag, 1, IREC + 0x80),
            (PickFrom::Tab(2), 0, IREC + 0x40),
            (PickFrom::Tab(2), 1, IREC + 0x80),
            (PickFrom::Tab(5), 0, IREC + 0x40),
            (PickFrom::Tab(5), 1, IREC + 0x80),
        ],
        "item index 9 has no record, tab 3 does not read but counts, tab 6 is one too many"
    );
    assert!(dumps.iter().all(|d| d.name.is_none() && d.lines.len() == ITEM_RECORD_LINES));
    assert_eq!(dumps[0].lines[0], hexascii(&mem, IREC + 0x40, 32));
    assert_eq!(dumps[1].lines[35], hexascii(&mem, IREC + 0x80 + 35 * 32, 32));
}
