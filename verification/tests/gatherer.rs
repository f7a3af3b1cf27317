use desert_tooling::gatherer::catch::UnknownClasses;
use desert_tooling::gatherer::config::{parse, Config, Family, LiveConfig, MULT_MAX, MULT_MIN};
use desert_tooling::gatherer::dump::{dump_decision, DumpDecision, FILE_NAME, MAX_DUMP};
use desert_tooling::gatherer::hook::{Counters, Outcome};
use desert_tooling::gatherer::remember::{OutputBlock, Table, MAX_BLOCKS, MAX_RECORDS};

// -- catch -------------------------------------------------------------------

#[test]
fn unknown_classes_are_reported_once_each() {
    let mut u = UnknownClasses::new();
    assert!(u.first_unknown(0x11));
    assert!(!u.first_unknown(0x11));
    assert!(u.first_unknown(0x51));
    assert!(!u.first_unknown(0x51));
    assert!(u.first_unknown(0xFE));
    assert!(!u.first_unknown(0xFE));
}

#[test]
fn every_class_byte_lands_in_the_bitmap() {
    for c in 0u8..=255 {
        assert!(UnknownClasses::word_index(c) < 4, "0x{c:02X}");
    }
}

#[test]
fn every_class_byte_is_reported_exactly_once() {
    let mut u = UnknownClasses::new();
    for c in 0u8..=255 {
        assert!(u.first_unknown(c), "0x{c:02X} first time");
    }
    for c in 0u8..=255 {
        assert!(!u.first_unknown(c), "0x{c:02X} second time");
    }
}

// -- config ------------------------------------------------------------------

#[test]
fn defaults_are_vanilla() {
    let c = Config::default();
    assert!(c.enabled);
    assert!(!c.dry_run);
    assert!(!c.debug);
    assert!(c.all_vanilla());
    for f in [Family::Foraging, Family::Logging, Family::Mining, Family::Ore] {
        assert_eq!(c.multiplier(f), 1);
    }
}

#[test]
fn config_parses_every_key() {
    let (c, w) = parse(
        "; comment\n[DesertGatherer]\nEnabled=1\nDryRun=yes\nDebug=on\n\
         Foraging=10\nLogging=2\nMining=5\nOre=100\n",
    );
    assert!(c.enabled);
    assert!(c.dry_run);
    assert!(c.debug);
    assert_eq!(c.multiplier(Family::Foraging), 10);
    assert_eq!(c.multiplier(Family::Logging), 2);
    assert_eq!(c.multiplier(Family::Mining), 5);
    assert_eq!(c.multiplier(Family::Ore), 100);
    assert!(!c.all_vanilla());
    assert!(w.is_empty(), "{w:?}");
}

#[test]
fn config_case_insensitive_keys() {
    let (c, w) = parse("ENABLED=0\nforaging=3\nOrE=4\n");
    assert!(!c.enabled);
    assert_eq!(c.foraging, 3);
    assert_eq!(c.ore, 4);
    assert!(w.is_empty(), "{w:?}");
}

#[test]
fn config_bad_values_keep_the_default_and_warn() {
    let d = Config::default();
    let (c, w) = parse("Foraging=0\nLogging=101\nMining=abc\nOre=-2\nJunk=1\nnoequals\n");
    assert_eq!(c.foraging, d.foraging);
    assert_eq!(c.logging, d.logging);
    assert_eq!(c.mining, d.mining);
    assert_eq!(c.ore, d.ore);
    assert!(c.all_vanilla());
    // four bad multipliers, one unknown key, one syntax error
    assert_eq!(w.len(), 6, "{w:?}");
    assert!(w[0].starts_with("Foraging: bad value"), "{w:?}");
}

#[test]
fn config_warning_texts_are_exact() {
    let (_, w) = parse("Foraging=0\nJunk=1\nnoequals\n");
    assert_eq!(w[0], "Foraging: bad value \"0\" (1..100), keeping 1");
    assert_eq!(w[1], "unknown key \"Junk\"");
    assert_eq!(w[2], "no '=' in \"noequals\"");
}

#[test]
fn range_edges() {
    let (c, w) = parse("Foraging=1\nLogging=100\n");
    assert_eq!(c.foraging, MULT_MIN);
    assert_eq!(c.logging, MULT_MAX);
    assert!(w.is_empty(), "{w:?}");
}

#[test]
fn config_empty_text_is_the_default() {
    let (c, w) = parse("");
    assert_eq!(c, Config::default());
    assert!(w.is_empty());
}

#[test]
fn live_config_starts_equal_to_default() {
    let live = LiveConfig::new();
    assert_eq!(live.load(), Config::default());
    assert!(live.enabled());
    assert!(!live.dry_run());
    assert!(!live.debug());
    for f in [Family::Foraging, Family::Logging, Family::Mining, Family::Ore] {
        assert_eq!(live.multiplier(f), 1);
    }
}

#[test]
fn live_config_publish_round_trips() {
    let mut live = LiveConfig::new();
    let (cfg, w) = parse("Enabled=0\nDryRun=1\nDebug=1\nForaging=10\nLogging=2\nMining=5\nOre=100\n");
    assert!(w.is_empty(), "{w:?}");
    live.publish(&cfg);
    assert_eq!(live.load(), cfg);
    assert!(!live.enabled());
    assert!(live.dry_run());
    assert!(live.debug());
    assert_eq!(live.multiplier(Family::Foraging), 10);
    assert_eq!(live.multiplier(Family::Logging), 2);
    assert_eq!(live.multiplier(Family::Mining), 5);
    assert_eq!(live.multiplier(Family::Ore), 100);
}

#[test]
fn live_config_publish_overwrites_previous_values() {
    let mut live = LiveConfig::new();
    live.publish(&Config { enabled: false, dry_run: true, debug: true, foraging: 50, ..Config::default() });
    assert!(!live.enabled());
    assert_eq!(live.multiplier(Family::Foraging), 50);
    live.publish(&Config::default());
    assert_eq!(live.load(), Config::default());
}

// -- dump --------------------------------------------------------------------

#[test]
fn dump_table_off_is_skip_whatever_else_holds() {
    for dry in [false, true] {
        for size in [0, 1, 0x1562667, MAX_DUMP + 1, usize::MAX] {
            assert_eq!(dump_decision(false, dry, size), DumpDecision::Skip, "{dry} {size:#x}");
        }
    }
}

#[test]
fn without_dry_run_it_is_refused_before_the_size_is_looked_at() {
    for size in [0, 0x1562667, usize::MAX] {
        match dump_decision(true, false, size) {
            DumpDecision::Refuse(why) => {
                assert!(why.contains("needs DryRun=1"), "{why}");
                assert!(why.starts_with("DumpTable=1 ignored"), "{why}");
            }
            other => panic!("{size:#x}: {other:?}"),
        }
    }
}

#[test]
fn a_zero_size_is_refused() {
    match dump_decision(true, true, 0) {
        DumpDecision::Refuse(why) => assert!(why.contains("size of 0"), "{why}"),
        other => panic!("{other:?}"),
    }
}

#[test]
fn a_size_past_the_cap_is_refused_and_the_cap_itself_is_taken() {
    assert_eq!(dump_decision(true, true, MAX_DUMP), DumpDecision::Take);
    for size in [MAX_DUMP + 1, u32::MAX as usize, usize::MAX] {
        match dump_decision(true, true, size) {
            DumpDecision::Refuse(why) => assert!(why.contains("256 MiB"), "{size:#x}: {why}"),
            other => panic!("{size:#x}: {other:?}"),
        }
    }
}

#[test]
fn a_plausible_size_under_dry_run_is_taken() {
    assert_eq!(dump_decision(true, true, 0x1562667), DumpDecision::Take);
    assert_eq!(dump_decision(true, true, 1), DumpDecision::Take);
}

#[test]
fn refusal_texts_are_log_ready() {
    for (dry, size) in [(false, 1), (true, 0), (true, MAX_DUMP + 1)] {
        let DumpDecision::Refuse(why) = dump_decision(true, dry, size) else {
            panic!("{dry} {size:#x} should be refused");
        };
        assert!(!why.is_empty());
        assert!(!why.starts_with("[dump]"), "{why}");
    }
}

#[test]
fn the_file_name_is_the_one_the_tools_look_for() {
    assert_eq!(FILE_NAME, "DesertTooling.gimmickinfo.bin");
    assert_eq!(MAX_DUMP, 256 << 20);
}

// -- hook --------------------------------------------------------------------

fn outcome() -> Outcome {
    Outcome::not_loaded()
}

#[test]
fn the_summary_counts_in_words() {
    let o = Outcome { manager_known: true, visited: 275, rewritten: 82, unchanged: 193, scalars: 644, ..outcome() };
    assert_eq!(o.summary(), "82 records rewritten, 193 unchanged, 0 skipped; 644 scalars written");
    assert_eq!(o.warning(), None);
}

#[test]
fn the_warning_names_every_reason_in_order() {
    let o = Outcome {
        manager_known: true,
        visited: 10,
        skipped: 3,
        skip_unloaded: 2,
        skip_key: 1,
        blocks_skipped: 1,
        block_write: 1,
        ..outcome()
    };
    assert_eq!(
        o.warning().as_deref(),
        Some(
            "3 of 10 records and 1 blocks skipped (not loaded 2, key mismatch 1, write refused 1); \
             the parsed record layout may have moved in this game build"
        )
    );
}

#[test]
fn an_unreadable_manager_says_so() {
    let o = Outcome { manager_known: true, manager_unreadable: true, ..outcome() };
    assert_eq!(o.warning().as_deref(), Some("the record manager is unreadable; nothing was re-applied"));
}

#[test]
fn the_counters_count() {
    let mut c = Counters::new();
    assert_eq!(c.counters(), (0, 0, 0));
    c.saw_record();
    c.saw_record();
    c.patched(8);
    assert_eq!(c.counters(), (2, 1, 8));
}

// -- remember ----------------------------------------------------------------

fn blocks(specs: &[(u32, u64, u64)]) -> Vec<OutputBlock> {
    specs
        .iter()
        .enumerate()
        .map(|(n, &(item, min, max))| OutputBlock { offset: n * 68, item, min, max })
        .collect()
}

fn only(t: &Table, key: u32) -> (u32, u16, Vec<(u32, u64, u64)>) {
    let mut hits: Vec<_> = t.snapshot().into_iter().filter(|r| r.key == key).collect();
    assert_eq!(hits.len(), 1, "exactly one slot per key");
    let r = hits.remove(0);
    (r.key, r.idx, r.blocks)
}

#[test]
fn a_record_goes_in_and_comes_back_out() {
    let mut t = Table::new();
    assert!(t.is_empty());
    assert!(t.remember(17030001, 42, &blocks(&[(101, 1, 3), (102, 2, 8)])));
    assert_eq!(t.len(), 1);
    assert_eq!(only(&t, 17030001), (17030001, 42, vec![(101, 1, 3), (102, 2, 8)]));
}

#[test]
fn many_records_coexist() {
    let mut t = Table::new();
    for n in 0..64u32 {
        let key = 1 + n * u32::try_from(MAX_RECORDS).unwrap_or(1);
        assert!(t.remember(key, n as u16, &blocks(&[(n, u64::from(n) + 1, 8)])), "{key}");
    }
    assert_eq!(t.len(), 64);
    for n in 0..64u32 {
        let key = 1 + n * u32::try_from(MAX_RECORDS).unwrap_or(1);
        let (_, idx, b) = only(&t, key);
        assert_eq!(idx, n as u16);
        assert_eq!(b, vec![(n, u64::from(n) + 1, 8)]);
    }
}

#[test]
fn the_same_key_is_rewritten_in_place() {
    let mut t = Table::new();
    assert!(t.remember(7, 1, &blocks(&[(9, 1, 2)])));
    assert!(t.remember(7, 1, &blocks(&[(9, 1, 2)])));
    assert_eq!(t.len(), 1, "a reload must not claim a second slot");
    assert!(t.remember(7, 5, &blocks(&[(9, 3, 4), (10, 1, 1)])));
    assert_eq!(t.len(), 1);
    assert_eq!(only(&t, 7), (7, 5, vec![(9, 3, 4), (10, 1, 1)]));
}

#[test]
fn a_full_table_refuses() {
    let mut t = Table::new();
    for n in 0..MAX_RECORDS {
        let key = u32::try_from(n + 1).unwrap_or(1);
        assert!(t.remember(key, 0, &blocks(&[(1, 1, 1)])), "slot {n}");
    }
    assert_eq!(t.len(), MAX_RECORDS);
    assert!(!t.remember(0xDEAD, 0, &blocks(&[(1, 1, 1)])), "no slot left to claim");
    assert!(t.remember(1, 3, &blocks(&[(1, 2, 2)])));
    assert_eq!(only(&t, 1).1, 3);
}

#[test]
fn nonsense_is_refused_rather_than_stored() {
    let mut t = Table::new();
    assert!(!t.remember(0, 0, &blocks(&[(1, 1, 1)])), "key 0 is the free marker");
    assert!(!t.remember(5, 0, &[]), "a record with no output blocks");
    let too_many = blocks(&[(1, 1, 1); MAX_BLOCKS + 1]);
    assert!(!t.remember(5, 0, &too_many), "more blocks than a slot holds");
    assert!(t.is_empty());
    assert!(t.remember(5, 0, &blocks(&[(1, 1, 1); MAX_BLOCKS])));
    assert_eq!(only(&t, 5).2.len(), MAX_BLOCKS);
}

use desert_tooling::gatherer::catch::{count_for, CatchKind, CatchNote, CatchSettings};
use desert_tooling::looter::memory::{Memory, Region};

/// A creature actor of type `ty` whose status component holds `class`.
fn creature_mem(ty: u8, class: u8) -> Memory {
    const BASE: usize = 0x4000_0000;
    let mut b = vec![0u8; 0x400];
    b[0x88..0x90].copy_from_slice(&((BASE + 0x100) as u64).to_le_bytes());
    b[0x101] = ty;
    b[0x68..0x70].copy_from_slice(&((BASE + 0x200) as u64).to_le_bytes());
    b[0x220..0x228].copy_from_slice(&((BASE + 0x300) as u64).to_le_bytes());
    b[0x35A] = class;
    Memory { regions: vec![Region { base: BASE, bytes: b }] }
}

#[test]
fn a_catch_is_multiplied_only_for_a_known_class_with_the_switch_on() {
    let classes = [(0x80u8, CatchKind::Bug), (0x90u8, CatchKind::Fish)];
    let live = CatchSettings { enabled: true, dry_run: false, bug: 3, fish: 250 };
    let mut seen = UnknownClasses::new();
    let a = 0x4000_0000usize;
    assert_eq!(count_for(&creature_mem(6, 0x80), a, &classes, &live, &mut seen), (3, CatchNote::Multiplied(CatchKind::Bug, 0x80, 3)));
    assert_eq!(count_for(&creature_mem(6, 0x90), a, &classes, &live, &mut seen).0, 100, "clamped to the multiplier range");
    assert_eq!(count_for(&creature_mem(3, 0x80), a, &classes, &live, &mut seen), (1, CatchNote::Quiet), "not a catchable type");
    assert_eq!(count_for(&creature_mem(6, 0x44), a, &classes, &live, &mut seen), (1, CatchNote::UnknownClass(0x44)));
    assert_eq!(count_for(&creature_mem(6, 0x44), a, &classes, &live, &mut seen), (1, CatchNote::Quiet), "reported once");
    let dry = CatchSettings { dry_run: true, ..live };
    assert_eq!(count_for(&creature_mem(6, 0x80), a, &classes, &dry, &mut seen), (1, CatchNote::DryRun(CatchKind::Bug, 0x80, 3)));
    let off = CatchSettings { enabled: false, ..live };
    assert_eq!(count_for(&creature_mem(6, 0x80), a, &classes, &off, &mut seen), (1, CatchNote::Quiet));
}
