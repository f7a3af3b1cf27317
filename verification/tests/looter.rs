use desert_tooling::looter::actors::{
    actor_eid, bag_tab, carcass_has_drops, component_label, component_names, eid_map, gimmick_info,
    gimmick_record_index, interaction_category, interaction_words, is_player_eid, node_name, node_path,
    object_fields, raw_items, rtti_name, short_name, status_bytes, ActorList, GimmickInfo, InventoryTab,
    find_manager, global_object_census, DataSection,
    Kind, StatusBytes, EIDMAP_OFF, SLOT_ACTOR_OFF, SLOT_EID_OFF,
};
use desert_tooling::looter::tables::{
    gimmick_name_candidates, gimmick_record_name, item_record_name, key_index_multi, probe_all_tables, record_name_any,
    record_pointer_set,
};
use desert_tooling::looter::dump::{
    census, dump_all_strings, dump_gimmick_raw, dump_maps, dump_type_object, dump_value_object, find_key_links, find_record_links, hexascii,
    hunt_keys, match_gimmick_keys, node_places, qwords, scan_links, scan_links_deep, server_side, PlaceRule,
};
use desert_tooling::looter::config::{never_forge_pickup, WELL_BUCKET_RECORD_KEY, WELL_BUCKET_RECORD_NAME};
use desert_tooling::looter::events::{resolve, skin_yield_line, EventApi, Events, PickupRequest};
use desert_tooling::looter::game::{category_text, find_world, Anchors, World};
use desert_tooling::looter::hunting::{Hunting, HUNTING_RANGE, SEEN};
use desert_tooling::looter::memory::{MainModule, Memory, Region};
use desert_tooling::looter::payload::{
    catch_payload, hex, pickup_payload, skin_payload, PickupMode, CATCH_DESCRIPTOR, CATCH_ID_EXPECTED,
    CATCH_PAYLOAD_SIZE, PICKUP_DESCRIPTOR, SKIN_DESCRIPTOR, SKIN_ID_EXPECTED, SKIN_PAYLOAD_SIZE,
};
use desert_tooling::looter::recorder::{
    census_lines, record_action, RecordAction, Recorder, RECORD_CAP, RECORD_PER_DESC,
};

// -- payload -----------------------------------------------------------------

#[test]
fn gather_payload_layout() {
    let p = pickup_payload(2057, 0xB012_3456, PickupMode::Gather).expect("gather has a payload");
    assert_eq!(p, [0x09, 0x08, 0xFF, 0x05, 0x56, 0x34, 0x12, 0xB0, 0x00, 0x00, 0x01, 0xFF, 0x00]);
    assert_eq!(hex(&p[..3]), "09 08 FF");
    let i = pickup_payload(2057, 0xB010_0642, PickupMode::Item).expect("item has a payload");
    assert_eq!(i, [0x09, 0x08, 0xFF, 0x00, 0x42, 0x06, 0x10, 0xB0, 0x01, 0x01, 0x00, 0xFF, 0x00]);
}

#[test]
fn catch_payload_matches_what_the_game_queued() {
    assert_eq!(catch_payload(CATCH_ID_EXPECTED, 0xB010_02C3), [0x00, 0x08, 0xFF, 0xC3, 0x02, 0x10, 0xB0, 0x03]);
    assert_eq!(catch_payload(CATCH_ID_EXPECTED, 0xB010_02DC), [0x00, 0x08, 0xFF, 0xDC, 0x02, 0x10, 0xB0, 0x03]);
    assert_eq!(catch_payload(CATCH_ID_EXPECTED, 0xB010_02DB), [0x00, 0x08, 0xFF, 0xDB, 0x02, 0x10, 0xB0, 0x03]);
}

#[test]
fn skin_payload_matches_what_the_game_queued() {
    assert_eq!(skin_payload(SKIN_ID_EXPECTED, 0xB030_21AF), [0xE8, 0x07, 0xFF, 0xAF, 0x21, 0x30, 0xB0]);
    assert_eq!(skin_payload(SKIN_ID_EXPECTED, 0xB010_0387), [0xE8, 0x07, 0xFF, 0x87, 0x03, 0x10, 0xB0]);
    assert_eq!(SKIN_PAYLOAD_SIZE + 1, CATCH_PAYLOAD_SIZE);
    assert_eq!(
        skin_payload(CATCH_ID_EXPECTED, 0xB010_02C3)[..],
        catch_payload(CATCH_ID_EXPECTED, 0xB010_02C3)[..SKIN_PAYLOAD_SIZE]
    );
}

#[test]
fn pickup_payload_refuses_catch() {
    assert_eq!(pickup_payload(2048, 0xB010_02C3, PickupMode::Catch), None);
    assert_eq!(PickupMode::Catch.descriptor_name(), CATCH_DESCRIPTOR);
    assert_eq!(PickupMode::Gather.descriptor_name(), PICKUP_DESCRIPTOR);
}

#[test]
fn pickup_payload_refuses_skin() {
    assert_eq!(pickup_payload(SKIN_ID_EXPECTED, 0xB030_21AF, PickupMode::Skin), None);
    assert_eq!(PickupMode::Skin.descriptor_name(), SKIN_DESCRIPTOR);
}

#[test]
fn hex_of_nothing_and_of_one_byte() {
    assert_eq!(hex(&[]), "");
    assert_eq!(hex(&[0xAB]), "AB");
    assert_eq!(hex(&[0x00, 0x0F, 0xF0]), "00 0F F0");
}

// -- recorder ----------------------------------------------------------------

fn replay(keys: usize, stream: &[usize]) -> (Vec<u32>, u32, Option<usize>) {
    let mut logged = vec![0u32; keys];
    let mut total = 0;
    let mut stopped = None;
    for (i, &k) in stream.iter().enumerate() {
        if stopped.is_some() {
            break;
        }
        let per = logged.get_mut(k).expect("key in range");
        let action = record_action(*per, total);
        if action.log {
            *per += 1;
            total += 1;
        }
        if action.stop {
            stopped = Some(i);
        }
    }
    (logged, total, stopped)
}

#[test]
fn first_event_of_a_descriptor_is_always_logged() {
    assert_eq!(record_action(0, 0), RecordAction { log: true, stop: false });
    assert!(record_action(0, RECORD_CAP - 1).log);
}

#[test]
fn per_descriptor_cap_holds_with_the_global_cap_wide_open() {
    assert!(record_action(RECORD_PER_DESC - 1, 0).log);
    assert!(!record_action(RECORD_PER_DESC, 0).log);
    assert!(!record_action(RECORD_PER_DESC + 1, 0).log);
}

#[test]
fn the_line_that_fills_the_global_cap_stops_exactly_once() {
    let a = record_action(0, RECORD_CAP - 1);
    assert_eq!(a, RecordAction { log: true, stop: true });
    for extra in 0..4 {
        assert_eq!(record_action(0, RECORD_CAP + extra), RecordAction { log: false, stop: false });
    }
}

#[test]
fn stop_implies_log() {
    for desc_logged in [0, 1, RECORD_PER_DESC - 1, RECORD_PER_DESC, RECORD_PER_DESC + 1] {
        for total in [0, 1, RECORD_CAP - 2, RECORD_CAP - 1, RECORD_CAP, RECORD_CAP + 1] {
            let a = record_action(desc_logged, total);
            assert!(!a.stop || a.log, "stop without log at ({desc_logged}, {total})");
        }
    }
}

const CENSUS: [(&str, u32); 8] = [
    ("TrocTrHandleGameEventOnceTimer", 1046),
    ("TrocTrPushKnowledgeOnceTimer", 60),
    ("TrocTrSaveGameDataAutoTimer", 47),
    ("TrocTrProcessPickUpItemOnceTimer", 33),
    ("TrocTrDeleteSequencerOnceTimer", 4),
    ("TrocTrUpdateStageOnceTimer", 3),
    ("TrocTrInteractionRewardOnceTimer", 3),
    ("TrocTrProcessLootingDeadDropOnceTimer", 4),
];

fn census_stream() -> Vec<usize> {
    let mut s = Vec::new();
    for (i, (_, n)) in CENSUS.iter().enumerate() {
        for _ in 0..*n {
            s.push(i);
        }
    }
    s
}

#[test]
fn the_rare_dead_drop_event_survives_the_flood() {
    let dead_drop = CENSUS.len() - 1;
    let stream = census_stream();
    assert_eq!(stream.len(), 1200);
    assert!(stream.len() - CENSUS[dead_drop].1 as usize > RECORD_CAP as usize);
    let (logged, total, stopped) = replay(CENSUS.len(), &stream);
    assert_eq!(logged.get(dead_drop), Some(&4), "all four dead-drop events must be logged");
    assert_eq!(logged, vec![RECORD_PER_DESC, RECORD_PER_DESC, RECORD_PER_DESC, RECORD_PER_DESC, 4, 3, 3, 4]);
    assert_eq!(total, 114);
    assert_eq!(stopped, None);
}

#[test]
fn the_old_global_cap_alone_lost_it() {
    let stream = census_stream();
    let mut logged = vec![0u32; CENSUS.len()];
    for &k in &stream {
        let total: u32 = logged.iter().sum();
        if total >= RECORD_CAP {
            break;
        }
        *logged.get_mut(k).expect("key in range") += 1;
    }
    assert_eq!(logged.get(CENSUS.len() - 1), Some(&0));
}

// -- hunting -----------------------------------------------------------------

#[test]
fn the_published_multiplier_is_clamped_to_the_key_range() {
    let mut h = Hunting::new();
    h.set_multiplier(5);
    assert_eq!(h.multiplier(), 5);
    h.set_multiplier(0);
    assert_eq!(h.multiplier(), HUNTING_RANGE.0, "0 would zero a carcass out");
    h.set_multiplier(u32::MAX);
    assert_eq!(h.multiplier(), HUNTING_RANGE.1);
    h.set_multiplier(1);
    assert_eq!(h.multiplier(), 1);
}

#[test]
fn a_remembered_component_is_refused_until_it_falls_out_of_the_ring() {
    let mut h = Hunting::new();
    let base = 0x7E57_0000_0000usize;
    assert!(!h.already_multiplied(base + 0x10), "first sight");
    h.remember(base + 0x10);
    assert!(h.already_multiplied(base + 0x10), "the put-back retry must be refused");
    assert!(!h.already_multiplied(base + 0x20), "a different carcass is unaffected");
    h.remember(0);
    assert!(!h.already_multiplied(0));
    for i in 0..SEEN {
        h.remember(base + 0x1000 + i * 0x40);
    }
    assert!(!h.already_multiplied(base + 0x10), "evicted after a full ring");
}

// -- config ------------------------------------------------------------------

#[test]
fn the_well_bucket_is_never_forged_by_key_or_by_name() {
    assert_eq!(WELL_BUCKET_RECORD_KEY, 1001081);
    assert!(never_forge_pickup(Some(WELL_BUCKET_RECORD_KEY), None));
    assert!(never_forge_pickup(None, Some(WELL_BUCKET_RECORD_NAME)));
    assert!(never_forge_pickup(Some(1), Some("gimmick_well_0001_parts01")));
    assert!(!never_forge_pickup(Some(1001082), Some("gimmick_well_0001_parts02")));
    assert!(!never_forge_pickup(None, None));
}

// -- actors ------------------------------------------------------------------

#[test]
fn a_carcass_is_a_candidate_only_while_gathercarcass_is_on() {
    assert!(Kind::Carcass.is_gather_candidate(true));
    assert!(!Kind::Carcass.is_gather_candidate(false));
    for k in [Kind::Gather, Kind::Unarmed, Kind::Item, Kind::Catchable] {
        assert!(k.is_gather_candidate(false), "{k:?} is a candidate regardless of the switch");
        assert!(k.is_gather_candidate(true), "{k:?} is a candidate regardless of the switch");
    }
    for k in [
        Kind::Inert,
        Kind::Player,
        Kind::Character,
        Kind::Equipment,
        Kind::Interactable,
        Kind::Other,
        Kind::CarcassEmpty,
    ] {
        assert!(!k.is_gather_candidate(true), "{k:?} must never be a candidate");
        assert!(!k.is_gather_candidate(false), "{k:?} must never be a candidate");
    }
}

#[test]
fn every_kind_is_covered_by_the_candidate_test() {
    let covered = [
        Kind::Gather,
        Kind::Unarmed,
        Kind::Item,
        Kind::Catchable,
        Kind::Carcass,
        Kind::CarcassEmpty,
        Kind::Inert,
        Kind::Player,
        Kind::Character,
        Kind::Equipment,
        Kind::Interactable,
        Kind::Other,
    ];
    assert_eq!(covered.len(), Kind::ALL.len());
    for k in Kind::ALL {
        assert!(covered.contains(&k), "{k:?} is not named in the candidate test");
    }
}

fn le32(v: u32) -> [u8; 4] {
    v.to_le_bytes()
}

fn le64(v: usize) -> [u8; 8] {
    (v as u64).to_le_bytes()
}

#[test]
fn a_grown_bucket_count_does_not_reject_the_eid_map() {
    const CAPACITY: u32 = 78942;
    const EID: u32 = 0xB000_0123;
    let actor_addr = 0x10_0000usize;
    let slot_addr = 0x20_0000usize;
    let values_addr = 0x30_0000usize;
    let keys_addr = 0x40_0000usize;
    let container_addr = 0x50_0000usize;

    let mut slot = vec![0u8; SLOT_ACTOR_OFF + 8];
    slot[SLOT_EID_OFF..SLOT_EID_OFF + 4].copy_from_slice(&le32(EID));
    slot[SLOT_ACTOR_OFF..SLOT_ACTOR_OFF + 8].copy_from_slice(&le64(actor_addr));

    let mut container = vec![0u8; EIDMAP_OFF + 0x20];
    let b = EIDMAP_OFF;
    container[b + 0x8..b + 0xC].copy_from_slice(&le32(1));
    container[b + 0xC..b + 0x10].copy_from_slice(&le32(CAPACITY));
    container[b + 0x10..b + 0x18].copy_from_slice(&le64(keys_addr));
    container[b + 0x18..b + 0x20].copy_from_slice(&le64(values_addr));

    let mem = Memory {
        regions: vec![
            Region { base: actor_addr, bytes: vec![0u8; 0x100] },
            Region { base: slot_addr, bytes: slot },
            Region { base: values_addr, bytes: le64(slot_addr).to_vec() },
            Region { base: keys_addr, bytes: vec![0u8; 8] },
            Region { base: container_addr, bytes: container },
        ],
    };
    let map = eid_map(&mem, container_addr).expect("a bucket count of 78942 is fine");
    assert_eq!(map.count, 1);
    assert_eq!(map.capacity, CAPACITY);
    assert_eq!(map.entries(&mem), vec![(EID, actor_addr)]);
}

#[test]
fn an_empty_eid_map_or_an_unreadable_value_array_is_refused() {
    let mut container = vec![0u8; EIDMAP_OFF + 0x20];
    let b = EIDMAP_OFF;
    container[b + 0x10..b + 0x18].copy_from_slice(&le64(0x40_0000));
    container[b + 0x18..b + 0x20].copy_from_slice(&le64(0x30_0000));
    let mem = Memory { regions: vec![Region { base: 0x50_0000, bytes: container.clone() }] };
    assert!(eid_map(&mem, 0x50_0000).is_none(), "a count of zero");
    container[b + 0x8..b + 0xC].copy_from_slice(&le32(1));
    let mem = Memory { regions: vec![Region { base: 0x50_0000, bytes: container }] };
    assert!(eid_map(&mem, 0x50_0000).is_none(), "the value array does not read");
}

#[test]
fn the_player_eid_starts_with_a0() {
    assert!(is_player_eid(0xA000_0001));
    assert!(is_player_eid(0xA0FF_FFFF));
    assert!(!is_player_eid(0xB000_0001));
    assert!(!is_player_eid(0x00A0_0000));
    let mem = Memory { regions: vec![Region { base: 0x1000, bytes: vec![0, 0, 0, 0, 0x01, 0x00, 0x00, 0xA0] }] };
    assert_eq!(actor_eid(&mem, 0x1000 - 0x60 + 4), Some(0xA000_0001));
    assert_eq!(actor_eid(&mem, 0x1000 - 0x60 + 6), None, "a read past the region does not read");
}

#[test]
fn class_names_shorten_and_label() {
    assert_eq!(short_name(".?AVClientGimmickActorComponent@pa@@"), "ClientGimmickActorComponent");
    assert_eq!(short_name(".?AUPlain@@"), "Plain");
    assert_eq!(short_name("NoMangling"), "NoMangling");
    assert_eq!(component_label("ClientGimmickActorComponent"), "Gimmick");
    assert_eq!(component_label("ClientStatusComponent"), "Status");
    assert_eq!(component_label("Other"), "Other");
}

#[test]
fn the_bag_is_the_wanted_tab_or_the_largest() {
    let t = |id: i16, used: i16, max: i16| InventoryTab { ptr: 0, id, used, max };
    let tabs = [t(1, 3, 40), t(2, 0, 80), t(3, 5, 80), t(4, 0, 0)];
    assert_eq!(bag_tab(&tabs, Some(3)).map(|b| b.id), Some(3));
    assert_eq!(bag_tab(&tabs, Some(9)), None);
    assert_eq!(bag_tab(&tabs, None).map(|b| b.id), Some(3), "the last of the largest");
    assert_eq!(bag_tab(&[t(4, 0, 0)], None), None);
    assert_eq!(t(1, 3, 40).free(), 37);
}

#[test]
fn a_carcass_without_a_dead_drop_component_has_nothing() {
    let mem = Memory { regions: vec![] };
    assert!(!carcass_has_drops(&mem, 0x1000));
}

// -- events ------------------------------------------------------------------

fn request(eid: u32) -> PickupRequest {
    PickupRequest {
        target_eid: eid,
        record: 7,
        mode: PickupMode::Gather,
        target_actor: 0,
        player_actor: 0,
        player_eid: 0,
        route: 0,
        flag: 0,
        cat: 0,
    }
}

#[test]
fn one_request_is_pending_at_a_time_and_a_stale_one_is_dropped() {
    let mut e = Events::new();
    assert!(!e.has_pending());
    assert!(e.request(request(1), 1000));
    assert!(!e.request(request(2), 1001), "one at a time");
    assert!(e.has_pending());
    assert_eq!(e.drop_stale(500, 1400), None, "not stale yet");
    assert_eq!(e.drop_stale(500, 1600).map(|r| r.target_eid), Some(1));
    assert!(!e.has_pending());
    assert!(e.request(request(3), 2000));
    assert_eq!(e.take_request().map(|r| r.target_eid), Some(3));
    assert!(!e.has_pending());
}

#[test]
fn a_received_item_teaches_the_yield_of_the_record_sent_just_before() {
    let mut e = Events::new();
    e.note_sent(&request(1), 10_000);
    assert!(e.note_received(22008, 5, 10_500), "learned");
    assert_eq!(e.yield_of(7), Some((22008, 5)));
    assert!(e.take_yield_dirty());
    assert!(!e.take_yield_dirty());
    e.note_sent(&request(1), 20_000);
    assert!(!e.note_received(22008, 8, 20_100));
    assert_eq!(e.yield_of(7), Some((22008, 8)), "a larger count raises it");
    e.note_sent(&request(1), 30_000);
    assert!(!e.note_received(22008, 2, 30_100));
    assert_eq!(e.yield_of(7), Some((22008, 8)), "a smaller count does not lower it");
    e.note_sent(&request(1), 40_000);
    assert!(!e.note_received(22008, 9, 43_000), "too late to pair");
    assert_eq!(e.yield_of(7), Some((22008, 8)));
    assert_eq!(e.yields_snapshot(), vec![(7, 22008, 8)]);
}

#[test]
fn an_owned_entity_is_remembered_once() {
    let mut e = Events::new();
    assert!(!e.is_owned(5));
    e.mark_owned(5);
    e.mark_owned(5);
    assert!(e.is_owned(5));
    assert!(!e.is_owned(6));
}

// -- class names and what hangs off them --------------------------------------

const MODULE: usize = 0x1000_0000;
const HEAP: usize = 0x2000_0000;
const ACTOR: usize = HEAP;
const SUB: usize = HEAP + 0x1000;
const STATUS: usize = HEAP + 0x2000;
const GIMMICK: usize = HEAP + 0x3000;
const WORDS: usize = HEAP + 0x4000;
const INSTANCE: usize = HEAP + 0x5000;
const NAME_PTR: usize = HEAP + 0x6000;
const NAME: usize = HEAP + 0x7000;
const RECORD: usize = HEAP + 0x7800;

fn put(buf: &mut [u8], base: usize, at: usize, bytes: &[u8]) {
    buf[at - base..at - base + bytes.len()].copy_from_slice(bytes);
}

/// A module with two classes, and an actor whose component block holds a
/// status component in slot 0x10 and a gimmick component in slot 0x18.
fn world() -> (Memory, MainModule) {
    let mut module = vec![0u8; 0x1000];
    // Status class: vtable at +0x100, locator at +0x200, name at +0x310.
    put(&mut module, MODULE, MODULE + 0xF8, &le64(MODULE + 0x200));
    put(&mut module, MODULE, MODULE + 0x200, &le32(1));
    put(&mut module, MODULE, MODULE + 0x20C, &le32(0x300));
    put(&mut module, MODULE, MODULE + 0x310, b".?AVClientStatusActorComponent@pa@@\0");
    // Gimmick class: vtable at +0x120, locator at +0x240, name at +0x410.
    put(&mut module, MODULE, MODULE + 0x118, &le64(MODULE + 0x240));
    put(&mut module, MODULE, MODULE + 0x240, &le32(1));
    put(&mut module, MODULE, MODULE + 0x24C, &le32(0x400));
    put(&mut module, MODULE, MODULE + 0x410, b".?AVClientGimmickActorComponent@pa@@\0");
    // A class whose locator has the wrong signature: vtable at +0x140.
    put(&mut module, MODULE, MODULE + 0x138, &le64(MODULE + 0x280));
    put(&mut module, MODULE, MODULE + 0x280, &le32(0));

    let mut heap = vec![0u8; 0x8000];
    put(&mut heap, HEAP, ACTOR + 0x68, &le64(SUB));
    put(&mut heap, HEAP, SUB + 0x10, &le64(STATUS));
    put(&mut heap, HEAP, SUB + 0x18, &le64(GIMMICK));
    put(&mut heap, HEAP, SUB + 0x20, &le64(HEAP + 0x100));
    put(&mut heap, HEAP, HEAP + 0x100, &le64(MODULE + 0x140));
    put(&mut heap, HEAP, STATUS, &le64(MODULE + 0x100));
    put(&mut heap, HEAP, STATUS + 0x5A, &[0x75]);
    put(&mut heap, HEAP, STATUS + 0x273, &[1]);
    put(&mut heap, HEAP, GIMMICK, &le64(MODULE + 0x120));
    put(&mut heap, HEAP, GIMMICK + 0x48, &0x0123u16.to_le_bytes());
    put(&mut heap, HEAP, GIMMICK + 0x68, &le64(NAME_PTR));
    put(&mut heap, HEAP, GIMMICK + 0xC0, &le64(INSTANCE));
    put(&mut heap, HEAP, GIMMICK + 0xE0, &le64(WORDS));
    for (i, w) in [0x0201u64, 0xABC, 0, 0x1F, 0xFFFF_FFFF_FFFF_FFFF, 16].iter().enumerate() {
        put(&mut heap, HEAP, WORDS + 8 * i, &w.to_le_bytes());
    }
    put(&mut heap, HEAP, INSTANCE, &le32(7));
    put(&mut heap, HEAP, NAME_PTR, &le64(NAME));
    put(&mut heap, HEAP, NAME, b"ore_copper_vein\0");
    // A record: `**(rec+8)` is an item name, `**(rec+0x10)` a gimmick name.
    put(&mut heap, HEAP, RECORD + 0x08, &le64(RECORD + 0x40));
    put(&mut heap, HEAP, RECORD + 0x40, &le64(RECORD + 0x80));
    put(&mut heap, HEAP, RECORD + 0x80, b"item_basic_ore\0");
    put(&mut heap, HEAP, RECORD + 0x10, &le64(RECORD + 0x50));
    put(&mut heap, HEAP, RECORD + 0x50, &le64(RECORD + 0xC0));
    put(&mut heap, HEAP, RECORD + 0xC0, b"gi\0");
    let mem = Memory {
        regions: vec![Region { base: MODULE, bytes: module }, Region { base: HEAP, bytes: heap }],
    };
    (mem, MainModule { base: MODULE, size: 0x1000 })
}

#[test]
fn rtti_names_are_read_through_the_vtable_and_its_locator() {
    let (mem, md) = world();
    assert_eq!(rtti_name(&mem, &md, STATUS).as_deref(), Some(".?AVClientStatusActorComponent@pa@@"));
    assert_eq!(rtti_name(&mem, &md, GIMMICK).as_deref(), Some(".?AVClientGimmickActorComponent@pa@@"));
    assert_eq!(rtti_name(&mem, &md, HEAP + 0x100), None, "a locator signature other than 1");
    assert_eq!(rtti_name(&mem, &md, WORDS), None, "a vtable outside the module");
    assert_eq!(rtti_name(&mem, &md, 0x10), None, "an object that does not read");
}

#[test]
fn components_are_found_by_class_name() {
    let (mem, md) = world();
    let comps = component_names(&mem, &md, ACTOR);
    assert_eq!(
        comps,
        vec![
            (0x10, ".?AVClientStatusActorComponent@pa@@".to_string()),
            (0x18, ".?AVClientGimmickActorComponent@pa@@".to_string()),
        ]
    );
    assert_eq!(status_bytes(&mem, &md, ACTOR), Some(StatusBytes { kind: 0, flag: 1 }));
    assert_eq!(interaction_category(&mem, &md, ACTOR), Some(0x75));
    assert_eq!(gimmick_record_index(&mem, &md, ACTOR), Some(0x0123));
    assert_eq!(
        gimmick_info(&mem, &md, ACTOR),
        Some(GimmickInfo { comp_off: 0x18, instance: Some(7), record_id: Some(0x0201), kind: Some(0) })
    );
    assert_eq!(node_name(&mem, &md, ACTOR).as_deref(), Some("ore_copper_vein"));
    assert_eq!(node_path(&mem, &md, ACTOR), None, "no catch or attack component");
    assert!(component_names(&mem, &md, WORDS).is_empty(), "no component block");
    assert_eq!(status_bytes(&mem, &md, WORDS), None);
}

#[test]
fn interaction_words_print_in_upper_case_hex() {
    let (mem, md) = world();
    assert_eq!(interaction_words(&mem, &md, ACTOR), "201,ABC,0,1F,FFFFFFFFFFFFFFFF,10");
    assert_eq!(interaction_words(&mem, &md, WORDS), "-");
}

#[test]
fn object_fields_and_raw_items_name_what_they_point_at() {
    let (mem, md) = world();
    assert_eq!(
        object_fields(&mem, &md, SUB, 0x21),
        vec![
            (0x10, STATUS, "ClientStatusActorComponent".to_string()),
            (0x18, GIMMICK, "ClientGimmickActorComponent".to_string()),
        ]
    );
    let list = ActorList { header_off: 0, count: 3, capacity: 4, items: SUB + 0x10 };
    let raw = raw_items(&mem, &md, &list, 8);
    assert_eq!(raw.len(), 3);
    assert_eq!(raw[0].value, STATUS as u64);
    assert!(raw[0].readable);
    assert_eq!(raw[0].class.as_deref(), Some("ClientStatusActorComponent"));
    assert_eq!(raw[1].class.as_deref(), Some("ClientGimmickActorComponent"));
    assert_eq!(raw[2].class, None, "the wrong locator signature");
    assert_eq!(raw_items(&mem, &md, &list, 1).len(), 1);
}

#[test]
fn record_names_are_two_pointers_behind_the_record() {
    let (mem, _) = world();
    assert_eq!(item_record_name(&mem, RECORD).as_deref(), Some("item_basic_ore"));
    assert_eq!(gimmick_record_name(&mem, RECORD), None, "shorter than three characters");
    assert_eq!(record_name_any(&mem, RECORD).as_deref(), Some("item_basic_ore"));
    assert_eq!(gimmick_name_candidates(&mem, RECORD), vec!["*p:gi".to_string()]);
}

// -- the recording session ----------------------------------------------------

#[test]
fn a_session_tallies_names_and_caps_each_descriptor() {
    let mut r = Recorder::new();
    assert!(!r.is_recording());
    let (on, census) = r.toggle_recording();
    assert!(on && census.is_none() && r.is_recording());
    assert!(r.tally(0x10, None).is_none(), "a new descriptor needs its name");
    let first = r.tally(0x10, Some("EvA".to_string())).expect("named");
    assert_eq!((first.n, first.name.as_deref(), first.stop), (0, Some("EvA"), false));
    let second = r.tally(0x10, None).expect("known now");
    assert_eq!((second.n, second.name.as_deref()), (1, Some("EvA")));
    for _ in 2..40 {
        r.tally(0x10, None);
    }
    let late = r.tally(0x10, None).expect("known");
    assert_eq!(late.name, None, "past its share of lines");
    assert_eq!(late.n, RECORD_PER_DESC);
    r.tally(0x20, Some("EvB".to_string()));
    let (on, census) = r.toggle_recording();
    assert!(!on && !r.is_recording());
    let census = census.expect("the session's census");
    assert_eq!(census.0, RECORD_PER_DESC + 1);
    assert_eq!(census.1, vec![("EvA".to_string(), 41, RECORD_PER_DESC), ("EvB".to_string(), 1, 1)]);
    assert_eq!(
        census_lines("OFF", &census),
        vec![
            "[record] OFF: 42 events observed, 26 logged, 2 distinct descriptors".to_string(),
            "[record]      41 x EvA (25 logged)".to_string(),
            "[record]       1 x EvB".to_string(),
        ]
    );
    assert!(r.claim_session_end(false).is_none(), "the census is handed out once");
}

#[test]
fn the_global_cap_stops_the_session_exactly_once() {
    let mut r = Recorder::new();
    r.start_session();
    let mut stops = 0;
    let mut logged = 0;
    for d in 0..20usize {
        for _ in 0..RECORD_PER_DESC {
            let t = r.tally(d, Some(format!("E{d}"))).expect("named");
            if t.name.is_some() {
                logged += 1;
            }
            if t.stop {
                stops += 1;
                assert!(r.claim_session_end(true).is_some(), "the capped end takes the census");
            }
        }
    }
    assert_eq!(stops, 1);
    assert_eq!(logged, RECORD_CAP);
    assert!(r.claim_session_end(false).is_none());
}

// -- entry points from their call sites ---------------------------------------

fn call_site_image() -> (Memory, MainModule, usize, usize) {
    let mut module = vec![0x90u8; 0x1000];
    let site = MODULE + 0x100;
    let own = MODULE + 0x300;
    // call prepare (site+5 + 0x200), mov r8d,[desc_mask] (site+0xC + 0x300),
    // call descriptor_by_id (site+0x16 + 0x400), mov r12,[queue] (site+0x1D + 0x500).
    put(&mut module, MODULE, site, &[0xE8]);
    put(&mut module, MODULE, site + 1, &0x200i32.to_le_bytes());
    put(&mut module, MODULE, site + 5, &[0x44, 0x8B, 0x05]);
    put(&mut module, MODULE, site + 8, &0x300i32.to_le_bytes());
    put(&mut module, MODULE, site + 0x11, &[0xE8]);
    put(&mut module, MODULE, site + 0x12, &0x400i32.to_le_bytes());
    put(&mut module, MODULE, site + 0x16, &[0x4C, 0x8B, 0x25]);
    put(&mut module, MODULE, site + 0x19, &0x500i32.to_le_bytes());
    // lea r9,[rip+0x40] 0xE bytes before the steal site; call -0x100 at +7.
    put(&mut module, MODULE, own - 0xE, &[0x4C, 0x8D, 0x0D]);
    put(&mut module, MODULE, own - 0xB, &0x40i32.to_le_bytes());
    put(&mut module, MODULE, own + 8, &(-0x100i32).to_le_bytes());
    let mem = Memory { regions: vec![Region { base: MODULE, bytes: module }] };
    (mem, MainModule { base: MODULE, size: 0x1000 }, site, own)
}

#[test]
fn entry_points_are_decoded_from_their_call_sites() {
    let (mem, md, site, own) = call_site_image();
    let anchors = Anchors {
        hits: vec![("desc_mask+queue_site", site), ("alloc_event", 0x111), ("enqueue", 0x222), ("own_check_site", own)],
        missing: vec![],
        actor_manager_vtables: vec![],
    };
    assert_eq!(
        resolve(&mem, &md, &anchors),
        Ok(EventApi {
            prepare: site + 5 + 0x200,
            desc_by_id: site + 0x16 + 0x400,
            alloc_event: 0x111,
            enqueue: 0x222,
            queue_slot: site + 0x1D + 0x500,
            desc_mask: site + 0xC + 0x300,
            steal_check: own + 12 - 0x100,
            steal_ctx: own - 0xE + 7 + 0x40,
        })
    );
}

#[test]
fn a_missing_anchor_or_a_target_outside_the_module_is_an_error() {
    let (mut mem, md, site, _) = call_site_image();
    let mut anchors = Anchors {
        hits: vec![("desc_mask+queue_site", site), ("alloc_event", 0x111)],
        missing: vec!["enqueue"],
        actor_manager_vtables: vec![],
    };
    assert_eq!(resolve(&mem, &md, &anchors), Err("enqueue not found".to_string()));
    anchors.hits.push(("enqueue", 0x222));
    let r = resolve(&mem, &md, &anchors).expect("no steal site is fine");
    assert_eq!((r.steal_check, r.steal_ctx), (0, 0));
    let at = site + 1 - MODULE;
    mem.regions[0].bytes[at..at + 4].copy_from_slice(&0x7000_0000i32.to_le_bytes());
    assert_eq!(
        resolve(&mem, &md, &anchors),
        Err(format!("rel target 0x{:X} outside module", site + 5 + 0x7000_0000))
    );
    anchors.hits[0].1 = MODULE + 0xFFE;
    assert_eq!(resolve(&mem, &md, &anchors), Err("site outside image".to_string()));
}

// -- globals in the data sections ----------------------------------------------

#[test]
fn the_manager_and_the_census_are_found_through_data_section_globals() {
    let (mut mem, md) = world();
    let module = &mut mem.regions[0].bytes;
    module[0x808..0x810].copy_from_slice(&le64(STATUS));
    module[0x810..0x818].copy_from_slice(&le64(GIMMICK));
    module[0x818..0x820].copy_from_slice(&le64(STATUS));
    module[0x820..0x828].copy_from_slice(&le64(MODULE + 0x10));
    let data = [DataSection { virtual_address: 0x803, virtual_size: 0x20, raw_size: 0x40 }];
    assert_eq!(find_manager(&mem, &md, &data, &[(MODULE + 0x120) as u64]), Some((MODULE + 0x810, GIMMICK)));
    assert_eq!(find_manager(&mem, &md, &data, &[0x1234]), None);
    assert_eq!(
        global_object_census(&mem, &md, &data),
        vec![
            (0x808, STATUS, "ClientStatusActorComponent".to_string()),
            (0x810, GIMMICK, "ClientGimmickActorComponent".to_string()),
        ]
    );
    let anchors = Anchors { hits: vec![], missing: vec![], actor_manager_vtables: vec![(MODULE + 0x100) as u64] };
    assert_eq!(find_world(&mem, &md, &data, &anchors), Some(World { manager_slot: MODULE + 0x808, manager: STATUS }));
    assert_eq!(category_text(&mem, &md, ACTOR), "75");
    assert_eq!(category_text(&mem, &md, WORDS), "?");
}

#[test]
fn census_tables_map_records_and_keys() {
    let table = 0x3000_0000usize;
    let arr = table + 0x100;
    let recs = [table + 0x200, table + 0x300];
    let mut bytes = vec![0u8; 0x400];
    bytes[8..12].copy_from_slice(&le32(2));
    bytes[0x58..0x60].copy_from_slice(&le64(arr));
    bytes[0x100..0x108].copy_from_slice(&le64(recs[0]));
    bytes[0x108..0x110].copy_from_slice(&le64(recs[1]));
    bytes[0x200..0x204].copy_from_slice(&le32(0x0001_2345));
    bytes[0x208..0x20C].copy_from_slice(&le32(0x0000_0042));
    bytes[0x300..0x304].copy_from_slice(&le32(0xFFFF_FFFF));
    bytes[0x308..0x30C].copy_from_slice(&le32(0x0001_2345));
    let mem = Memory { regions: vec![Region { base: table, bytes }] };
    let census = vec![(0x10, table, "ItemInfoManager".to_string()), (0x18, table, "OtherManager".to_string())];
    let ptrs = record_pointer_set(&mem, &census, &["ItemInfoManager"]);
    assert_eq!(ptrs.len(), 2);
    assert_eq!(ptrs.get(&recs[1]), Some(&("ItemInfoManager".to_string(), 1)));
    let keys = key_index_multi(&mem, &census, &["ItemInfoManager"]);
    assert_eq!(keys.len(), 1, "0x42 is too small and all-ones is no key");
    assert_eq!(
        keys.get(&0x0001_2345),
        Some(&vec![("ItemInfoManager".to_string(), 0, recs[0]), ("ItemInfoManager".to_string(), 1, recs[1])])
    );
    assert!(record_pointer_set(&mem, &census, &["Nothing"]).is_empty());
}

#[test]
fn probing_finds_an_id_by_index_and_by_key() {
    let table = 0x3000_0000usize;
    let arr = table + 0x100;
    let recs = [table + 0x200, table + 0x300];
    let mut bytes = vec![0u8; 0x400];
    bytes[8..12].copy_from_slice(&le32(2));
    bytes[0x58..0x60].copy_from_slice(&le64(arr));
    bytes[0x100..0x108].copy_from_slice(&le64(recs[0]));
    bytes[0x108..0x110].copy_from_slice(&le64(recs[1]));
    bytes[0x200..0x204].copy_from_slice(&le32(0x0001_2345));
    bytes[0x300..0x304].copy_from_slice(&le32(0xFFFF_FFFF));
    bytes[0x308..0x30C].copy_from_slice(&le32(0x0001_2345));
    // Record 1 is named through the gimmick layout.
    bytes[0x310..0x318].copy_from_slice(&le64(table + 0x380));
    bytes[0x380..0x388].copy_from_slice(&le64(table + 0x390));
    bytes[0x390..0x395].copy_from_slice(b"rock\0");
    let mem = Memory { regions: vec![Region { base: table, bytes }] };
    let census = vec![
        (0x10, table, "ItemInfoManager".to_string()),
        (0x18, table, "OtherManager".to_string()),
        (0x20, table, "GimmickInfoManager".to_string()),
    ];
    let by_key = probe_all_tables(&mem, &census, 0x0001_2345);
    let seen: Vec<_> = by_key.iter().map(|h| (h.class.as_str(), h.rva, h.count, h.key_off, h.index, h.name.clone())).collect();
    assert_eq!(
        seen,
        vec![
            ("ItemInfoManager", 0x10, 2, Some(0), 0, None),
            ("ItemInfoManager", 0x10, 2, Some(8), 1, Some("rock".to_string())),
            ("GimmickInfoManager", 0x20, 2, Some(0), 0, None),
            ("GimmickInfoManager", 0x20, 2, Some(8), 1, Some("rock".to_string())),
        ]
    );
    let by_index = probe_all_tables(&mem, &census[..1], 1);
    assert_eq!(by_index.len(), 1);
    assert_eq!((by_index[0].key_off, by_index[0].index, by_index[0].name.as_deref()), (None, 1, Some("rock")));
    assert!(probe_all_tables(&mem, &census, 7).is_empty());
}

#[test]
fn the_server_manager_shows_its_fields_and_the_actor_of_the_wanted_eid() {
    const SRV: usize = 0x6000_0000;
    const CONTAINER: usize = 0x5000_0000;
    const SLOT: usize = 0x5100_0000;
    const VALUES: usize = 0x5200_0000;
    let (mut mem, md) = world();
    put(&mut mem.regions[1].bytes, HEAP, ACTOR + 0x70, &le64(NAME));
    put(&mut mem.regions[1].bytes, HEAP, ACTOR + 0x78, &le64(STATUS));
    let mut srv = vec![0u8; 0x100];
    put(&mut srv, SRV, SRV, &le64(STATUS));
    put(&mut srv, SRV, SRV + 0x08, &le64(WORDS));
    put(&mut srv, SRV, SRV + 0x10, &le64(CONTAINER));
    let mut container = vec![0u8; 0x100];
    put(&mut container, CONTAINER, CONTAINER + EIDMAP_OFF + 8, &le32(1));
    put(&mut container, CONTAINER, CONTAINER + EIDMAP_OFF + 0x10, &le64(VALUES));
    put(&mut container, CONTAINER, CONTAINER + EIDMAP_OFF + 0x18, &le64(VALUES));
    let mut slot = vec![0u8; 0x10];
    put(&mut slot, SLOT, SLOT + SLOT_EID_OFF, &le32(0xB000_0001));
    put(&mut slot, SLOT, SLOT + SLOT_ACTOR_OFF, &le64(ACTOR));
    mem.regions.push(Region { base: SRV, bytes: srv });
    mem.regions.push(Region { base: CONTAINER, bytes: container });
    mem.regions.push(Region { base: SLOT, bytes: slot });
    mem.regions.push(Region { base: VALUES, bytes: le64(SLOT).to_vec() });
    let census = vec![(0x40, STATUS, "Other".to_string()), (0x48, SRV, "ServerActorManager".to_string())];

    let side = server_side(&mem, &md, &census, 0xB000_0001).expect("the census has the manager");
    assert_eq!(side.manager, SRV);
    assert_eq!(side.fields, vec![(0, STATUS, "ClientStatusActorComponent".to_string())]);
    assert_eq!(side.containers.len(), 1, "the word block behind +0x08 holds no eid map");
    let c = &side.containers[0];
    assert_eq!((c.off, c.count, c.readable), (0x10, 1, 1));
    let a = c.actor.as_ref().expect("the eid is in the map");
    assert_eq!((a.actor, a.class.clone()), (ACTOR, None));
    assert_eq!(a.words, qwords(&mem, ACTOR, 12));
    assert_eq!(
        a.comps,
        vec![(0x10, "ClientStatusActorComponent".to_string()), (0x18, "ClientGimmickActorComponent".to_string())]
    );
    let links: Vec<_> = a.links.iter().map(|l| (l.off, l.text.clone(), l.class.clone())).collect();
    assert_eq!(
        links,
        vec![
            (0x70, Some("ore_copper_vein".to_string()), None),
            (0x78, None, Some("ClientStatusActorComponent".to_string())),
        ]
    );

    let other = server_side(&mem, &md, &census, 0xB000_0002).unwrap();
    assert!(other.containers[0].actor.is_none(), "no entry carries that eid");
    assert!(server_side(&mem, &md, &census[..1], 0xB000_0001).is_none());
}

/// A manager reached through a module slot, its container at `+8`, and one
/// map-shaped structure at `container+8`.
fn manager_world() -> (Memory, MainModule, World) {
    const MGR: usize = 0x7000_0000;
    const CTR: usize = 0x7100_0000;
    const ROWS: usize = 0x7200_0000;
    let (mut mem, md) = world();
    put(&mut mem.regions[0].bytes, MODULE, MODULE + 0x900, &le64(MGR));
    let mut mgr = vec![0u8; 0x498];
    put(&mut mgr, MGR, MGR, &le64(STATUS));
    put(&mut mgr, MGR, MGR + 8, &le64(CTR));
    let mut ctr = vec![0u8; 0x40];
    put(&mut ctr, CTR, CTR, &le64(GIMMICK));
    put(&mut ctr, CTR, CTR + 0x08, &le64(ROWS));
    put(&mut ctr, CTR, CTR + 0x10, &le32(3));
    put(&mut ctr, CTR, CTR + 0x14, &le32(4));
    put(&mut ctr, CTR, CTR + 0x20, &le64(0x1234));
    let mut rows = vec![0u8; 48];
    put(&mut rows, ROWS, ROWS, &le64(STATUS));
    put(&mut rows, ROWS, ROWS + 8, &le64(5));
    mem.regions.push(Region { base: MGR, bytes: mgr });
    mem.regions.push(Region { base: CTR, bytes: ctr });
    mem.regions.push(Region { base: ROWS, bytes: rows });
    (mem, md, World { manager_slot: MODULE + 0x900, manager: 0 })
}

#[test]
fn the_census_dump_follows_the_manager_and_its_container() {
    let (mem, md, w) = manager_world();
    for w in [w, World { manager_slot: MODULE + 0x908, manager: 0x7000_0000 }] {
        let c = census(&mem, &md, &w, &[]);
        assert_eq!(c.manager, 0x7000_0000, "re-read through the slot, else the one found at start");
        assert_eq!(c.manager_fields, vec![(0, STATUS, "ClientStatusActorComponent".to_string())]);
        let d = c.container.expect("the container reads");
        assert_eq!((d.ptr, d.class.as_str()), (0x7100_0000, "?"));
        assert_eq!(d.fields, vec![(0, GIMMICK, "ClientGimmickActorComponent".to_string())]);
        assert!(c.globals.is_empty());
    }
}

#[test]
fn the_map_dump_lists_every_structure_that_reads() {
    let (mem, md, w) = manager_world();
    let maps = dump_maps(&mem, &md, &w);
    let labels: Vec<&str> = maps.iter().map(|m| m.label.as_str()).collect();
    assert_eq!(
        labels,
        vec![
            "ctr+0x08", "mgr+0x128", "mgr+0x130", "mgr+0x138", "mgr+0x140", "mgr+0x148", "mgr+0x150", "mgr+0x158",
            "mgr+0x180", "mgr+0x190", "mgr+0x438",
        ],
        "the container's slots from +0x88 on do not read"
    );
    let m = &maps[0].map;
    assert_eq!((m.p0, m.a, m.b, m.p2, m.p3), (0x7200_0000, 3, 4, 0, 0x1234));
    let row: Vec<_> = m.row0.as_ref().expect("p0 reads").iter().map(|c| (c.value, c.readable, c.eid, c.class.clone())).collect();
    assert_eq!(row[0], (STATUS as u64, true, Some(0), Some("ClientStatusActorComponent".to_string())));
    assert_eq!(row[1], (5, false, None, None));
    assert_eq!(row.len(), 6);
    assert!(m.row2.is_none(), "p2 is null");
    assert!(maps[1..].iter().all(|x| x.map.p0 == 0 && x.map.row0.is_none()));
}

// -- the carcass window ---------------------------------------------------------

#[test]
fn a_carcass_window_merges_what_arrives_and_prints_once_closed() {
    let mut e = Events::new();
    e.note_skin_received(1, 1, 0);
    assert!(e.flush_skin_yield(true, 0).is_none(), "no window open");
    e.open_skin_window(0xB000_00D9, 0xD9, 10_000);
    e.note_skin_received(22008, 2, 10_001);
    e.note_skin_received(22010, 1, 10_002);
    e.note_skin_received(22008, 3, 10_003);
    e.note_skin_received(22008, u32::MAX, 10_004);
    e.note_skin_received(99, 1, 12_500);
    assert!(e.flush_skin_yield(false, 11_000).is_none(), "still open");
    let p = e.flush_skin_yield(false, 12_001).expect("closed");
    assert_eq!(p.items, vec![(22008, u32::MAX), (22010, 1)], "merged by key, saturating; late arrival dropped");
    assert!(e.flush_skin_yield(true, 12_002).is_none(), "taken");
    let names = vec![Some("Leather".to_string()), None];
    assert_eq!(
        skin_yield_line(&p, "2.0", &names),
        "[skin] carcass cat=D9 eid=B00000D9 gave (within 2.0s): Leather key=22008 x4294967295; key=22010 x1"
    );
    e.open_skin_window(0x0000_0001, 0x05, 20_000);
    let q = e.flush_skin_yield(true, 20_100).expect("forced");
    assert_eq!(skin_yield_line(&q, "0.1", &[]), "[skin] carcass cat=05 eid=00000001 gave nothing within 0.1s");
    e.open_skin_window(7, 7, 30_000);
    e.close_skin_window();
    assert!(e.flush_skin_yield(true, 30_001).is_none(), "closed after a failed send");
}

// -- developer dumps -----------------------------------------------------------

#[test]
fn qwords_and_hexascii_print_what_reads() {
    let (mem, _) = world();
    assert_eq!(qwords(&mem, WORDS, 3), "201 ABC 0");
    assert_eq!(qwords(&mem, 0x10, 2), "? ?");
    assert_eq!(hexascii(&mem, NAME, 4), "6F 72 65 5F |ore_|");
    assert_eq!(hexascii(&mem, NAME + 15, 2), "00 00 |..|");
    assert_eq!(hexascii(&mem, 0x10, 1), "?? |?|");
}

#[test]
fn a_value_object_lists_the_fields_that_lead_to_classes() {
    let (mem, md) = world();
    let (words, links) = dump_value_object(&mem, &md, SUB);
    assert!(words.starts_with("0 0 "));
    let got: Vec<(usize, usize, String)> = links.into_iter().map(|l| (l.off, l.ptr, l.class)).collect();
    assert_eq!(
        got,
        vec![
            (0x10, STATUS, "ClientStatusActorComponent".to_string()),
            (0x18, GIMMICK, "ClientGimmickActorComponent".to_string()),
        ]
    );
}

#[test]
fn the_gimmick_component_and_its_side_objects_are_dumped() {
    let (mem, md) = world();
    let g = dump_gimmick_raw(&mem, &md, ACTOR).expect("a gimmick node");
    assert_eq!(g.comp, GIMMICK);
    assert_eq!(g.sides.len(), 2);
    assert_eq!((g.sides[0].off, g.sides[0].ptr, g.sides[0].words.as_str()), (0xC0, INSTANCE, "7 0 0 0 0 0"));
    assert_eq!(g.sides[0].class, "");
    assert_eq!(g.sides[1].words, "201 ABC 0 1F FFFFFFFFFFFFFFFF 10");
    assert!(dump_gimmick_raw(&mem, &md, WORDS).is_none(), "no component block");
    let t = dump_type_object(&mem, &md, ACTOR).expect("+0xE0 -> [1] reads");
    assert_eq!((t.obj, t.class.as_str(), t.name.clone(), t.chain.clone()), (0xABC, "?", None, None));
    assert!(t.fields.is_empty());
}

#[test]
fn gimmick_words_are_matched_against_the_key_index() {
    let (mem, md) = world();
    let mut index = std::collections::HashMap::new();
    index.insert(0x0123u32, RECORD);
    index.insert(7u32, RECORD);
    let hits = match_gimmick_keys(&mem, &md, ACTOR, &index);
    let got: Vec<(Option<usize>, usize, u32, usize)> = hits.iter().map(|k| (k.via, k.off, k.value, k.rec)).collect();
    assert_eq!(got, vec![(None, 0x48, 0x0123, RECORD), (Some(0xC0), 0, 7, RECORD)]);
    assert_eq!(hits[0].names, vec!["*p:gi".to_string()]);
}

#[test]
fn record_links_are_found_in_every_place_of_a_node() {
    let (mut mem, md) = world();
    assert!(mem.write_u64(ACTOR + 0x10, NAME as u64));
    let mut records = std::collections::HashMap::new();
    records.insert(STATUS, ("StatusTable".to_string(), 3usize));
    let places = find_record_links(&mem, &md, ACTOR, &records);
    let labels: Vec<&str> = places.iter().map(|p| p.label.as_str()).collect();
    assert_eq!(labels, vec!["actor", "sub", "Status", "Gimmick"]);
    let actor = &places[0];
    assert_eq!(actor.links.len(), 1);
    assert_eq!((actor.links[0].off, actor.links[0].text.as_deref()), (0x10, Some("ore_copper_vein")));
    assert_eq!(actor.deep.len(), 1);
    assert_eq!((actor.deep[0].off, actor.deep[0].off2, actor.deep[0].ptr), (0x68, 0x10, STATUS));
    let sub = &places[1];
    assert_eq!(sub.links.len(), 1);
    assert_eq!(sub.links[0].record, Some(("StatusTable".to_string(), 3)));
    assert!(places[2].sides.is_empty());
    assert_eq!(places[3].sides.iter().map(|s| s.off).collect::<Vec<_>>(), vec![0x420, 0x428, 0x5A8]);
    assert!(places[3].sides.iter().all(|s| s.target.is_none()));
    assert_eq!(scan_links(&mem, &md, SUB, 0x18, &records).len(), 1);
    assert!(scan_links_deep(&mem, &md, SUB, 0x18, &records).is_empty());
}

fn key_index() -> std::collections::HashMap<u32, Vec<(String, usize, usize)>> {
    let mut keys = std::collections::HashMap::new();
    keys.insert(7u32, vec![("GimmickInfoManager".to_string(), 5usize, RECORD)]);
    keys.insert(0x123u32, vec![("ItemInfoManager".to_string(), 1usize, RECORD)]);
    keys
}

#[test]
fn key_links_are_found_in_the_node_and_its_gimmick_side_objects() {
    let (mem, md) = world();
    let hits = find_key_links(&mem, &md, ACTOR, &key_index());
    let got: Vec<(&str, usize, u32)> = hits.iter().map(|h| (h.label.as_str(), h.off, h.value)).collect();
    assert_eq!(got, vec![("Gimmick", 0x48, 0x123), ("Gimmick+0xC0->", 0, 7)]);
    assert_eq!(hits[0].refs.len(), 1);
    assert_eq!((hits[0].refs[0].table.as_str(), hits[0].refs[0].index), ("ItemInfoManager", 1));
    assert_eq!(hits[1].refs[0].name.as_deref(), Some("item_basic_ore"));
}

#[test]
fn a_hunt_reports_gimmick_keys_and_the_collect_range() {
    let (mut mem, md) = world();
    assert!(mem.write_u64(ACTOR + 0x20, 17_020_006));
    let hits = hunt_keys(&mem, &md, ACTOR, &key_index());
    let got: Vec<(&str, usize, u32, usize, bool)> =
        hits.iter().map(|h| (h.label.as_str(), h.off, h.value, h.refs.len(), h.collect_range)).collect();
    assert_eq!(got, vec![("actor", 0x20, 17_020_006, 0, true), ("Gimmick+0xC0->", 0, 7, 1, false)]);
    let rule = PlaceRule {
        actor: 0x800,
        sub: 0x1000,
        gimmick: 0x1000,
        other: 0x1000,
        sides: vec![0xC0, 0xE0, 0x420, 0x428, 0x5A8],
        side_size: 0x200,
        type_object: true,
    };
    let places: Vec<(String, usize)> = node_places(&mem, &md, ACTOR, &rule).into_iter().map(|(l, b, _)| (l, b)).collect();
    assert_eq!(
        places,
        vec![
            ("actor".to_string(), ACTOR),
            ("sub".to_string(), SUB),
            ("Status".to_string(), STATUS),
            ("Gimmick".to_string(), GIMMICK),
            ("Gimmick+0xC0->".to_string(), INSTANCE),
            ("Gimmick+0xE0->".to_string(), WORDS),
            ("Gimmick+0xE0->[1]->".to_string(), 0xABC),
        ]
    );
}

#[test]
fn strings_one_pointer_away_are_listed() {
    let (mut mem, md) = world();
    assert!(mem.write_u64(ACTOR + 0x10, NAME as u64));
    let hits = dump_all_strings(&mem, &md, ACTOR);
    let got: Vec<(&str, usize, &str)> = hits.iter().map(|h| (h.label.as_str(), h.off, h.text.as_str())).collect();
    assert_eq!(got, vec![("actor", 0x10, "ore_copper_vein")]);
}

// -- choosing the gather target ------------------------------------------------

use desert_tooling::looter::config::{Config as LooterConfig, Family as LooterFamily};
use desert_tooling::looter::target::{pick_gather_target, Candidate, CatchClass, NoTarget, NodeIdentity, PickFamily};

fn node(eid: u32, kind: Kind, key: u32, name: &str, family: Option<LooterFamily>) -> Candidate {
    Candidate {
        eid,
        actor: ACTOR,
        kind,
        catch: None,
        armed_twin: false,
        identity: Some(NodeIdentity { index: eid as u16, key: Some(key), name: Some(name.to_string()), family }),
    }
}

fn creature(eid: u32, class: Option<CatchClass>) -> Candidate {
    Candidate { eid, actor: ACTOR, kind: Kind::Catchable, catch: class, armed_twin: false, identity: None }
}

#[test]
fn the_nearest_allowed_node_is_picked() {
    let (mem, md) = world();
    let cfg = LooterConfig::default();
    let cands = vec![
        node(1, Kind::Unarmed, 10, "rock_a", Some(LooterFamily::Mining)),
        node(2, Kind::Gather, 11, "tree_b", Some(LooterFamily::Logging)),
    ];
    let p = pick_gather_target(&mem, &md, &cands, &cfg, &[]).unwrap();
    assert_eq!((p.index, p.record, p.name.as_str(), p.family, p.armed), (0, 1, "rock_a", PickFamily::Node(LooterFamily::Mining), false));
    assert_eq!(p.mode, PickupMode::Gather);

    let no_unarmed = LooterConfig { gather_unarmed: false, ..cfg };
    let p = pick_gather_target(&mem, &md, &cands, &no_unarmed, &[]).unwrap();
    assert_eq!((p.index, p.armed), (1, true));
    let p = pick_gather_target(&mem, &md, &cands, &cfg, &[1]).unwrap();
    assert_eq!(p.index, 1, "a skipped eid is passed over");

    let nothing_on = LooterConfig { gather_unarmed: false, gather_logging: false, ..cfg };
    assert_eq!(pick_gather_target(&mem, &md, &cands, &nothing_on, &[]).err(), Some(NoTarget::UnarmedOff(1)));
    let families_off = LooterConfig { gather_mining: false, gather_logging: false, ..cfg };
    assert_eq!(pick_gather_target(&mem, &md, &cands, &families_off, &[]).err(), Some(NoTarget::FamiliesOff(2)));
    assert_eq!(pick_gather_target(&mem, &md, &[], &cfg, &[]).err(), Some(NoTarget::Nothing));
}

#[test]
fn an_unarmed_twin_of_an_armed_node_is_left_for_the_armed_one() {
    let (mem, md) = world();
    let mut twin = node(1, Kind::Unarmed, 10, "rock_a", Some(LooterFamily::Mining));
    twin.armed_twin = true;
    let cands = vec![twin, node(2, Kind::Gather, 10, "rock_a", Some(LooterFamily::Mining))];
    let p = pick_gather_target(&mem, &md, &cands, &LooterConfig::default(), &[]).unwrap();
    assert_eq!((p.index, p.armed), (1, true));
}

#[test]
fn the_well_bucket_is_never_the_target() {
    let (mem, md) = world();
    let cfg = LooterConfig::default();
    let cands = vec![
        node(1, Kind::Gather, WELL_BUCKET_RECORD_KEY, "x", Some(LooterFamily::Foraging)),
        node(2, Kind::Unarmed, 5, WELL_BUCKET_RECORD_NAME, Some(LooterFamily::Foraging)),
        node(3, Kind::Gather, 6, "bush", Some(LooterFamily::Foraging)),
    ];
    let p = pick_gather_target(&mem, &md, &cands, &cfg, &[]).unwrap();
    assert_eq!((p.index, p.name.as_str()), (2, "bush"));
    assert_eq!(pick_gather_target(&mem, &md, &cands[..2], &cfg, &[]).err(), Some(NoTarget::Nothing));
}

#[test]
fn creatures_follow_their_own_switches() {
    let (mem, md) = world();
    let cfg = LooterConfig::default();
    let cands = vec![creature(1, Some(CatchClass::Unknown(0x42))), creature(2, None), creature(3, Some(CatchClass::Bug)), creature(4, Some(CatchClass::Fish))];
    let p = pick_gather_target(&mem, &md, &cands, &cfg, &[]).unwrap();
    assert_eq!((p.index, p.record, p.name.as_str(), p.family, p.mode, p.armed), (2, 0xFFFF, "bug cat=75", PickFamily::Bug, PickupMode::Catch, true));
    let no_bugs = LooterConfig { gather_bugs: false, ..cfg };
    let p = pick_gather_target(&mem, &md, &cands, &no_bugs, &[]).unwrap();
    assert_eq!((p.index, p.name.as_str()), (3, "fish cat=75"));
    let neither = LooterConfig { gather_bugs: false, gather_fish: false, ..cfg };
    assert_eq!(pick_gather_target(&mem, &md, &cands, &neither, &[]).err(), Some(NoTarget::FamiliesOff(2)));
}

#[test]
fn ground_items_follow_the_item_and_gear_switches() {
    let (mem, md) = world();
    let cfg = LooterConfig::default();
    let mut unnamed = node(9, Kind::Item, 1, "", None);
    unnamed.identity = Some(NodeIdentity { index: 7, key: None, name: None, family: None });
    let cands = vec![unnamed, node(1, Kind::Item, 1, "item_basic_equip_sword", None), node(2, Kind::Item, 2, "item_basic_ore", None)];
    let p = pick_gather_target(&mem, &md, &cands, &cfg, &[]).unwrap();
    assert_eq!((p.index, p.name.as_str(), p.family, p.mode, p.armed), (2, "item_basic_ore", PickFamily::Item, PickupMode::Item, false));
    let gear = LooterConfig { gather_gear: true, ..cfg };
    assert_eq!(pick_gather_target(&mem, &md, &cands, &gear, &[]).unwrap().index, 1);
    let no_items = LooterConfig { gather_items: false, ..cfg };
    assert_eq!(pick_gather_target(&mem, &md, &cands, &no_items, &[]).err(), Some(NoTarget::Nothing));
}

// -- the survey listing ---------------------------------------------------------

use desert_tooling::looter::survey::{survey_lines, LineStyle, Surveyed};

fn seen(kind: Kind, close: bool) -> Surveyed {
    Surveyed { kind, close }
}

#[test]
fn the_survey_lists_nodes_then_items_then_the_rest_and_says_what_it_cut() {
    let actors = vec![
        seen(Kind::Inert, true),
        seen(Kind::Item, true),
        seen(Kind::Character, false),
        seen(Kind::Gather, false),
        seen(Kind::Inert, false),
        seen(Kind::Unarmed, false),
    ];
    let s = survey_lines(&actors, 4, false);
    assert_eq!(
        s.lines,
        vec![(3, LineStyle::Node), (5, LineStyle::Node), (1, LineStyle::Node), (0, LineStyle::InertDetail)]
    );
    assert_eq!(s.cut, 2);
    assert_eq!(
        s.counts,
        vec![(Kind::Character, 1), (Kind::Gather, 1), (Kind::Inert, 2), (Kind::Item, 1), (Kind::Unarmed, 1)],
        "the census is never cut and goes by the kinds' names"
    );
    let all = survey_lines(&actors, 200, true);
    assert_eq!(all.cut, 0);
    assert_eq!(all.lines[4], (2, LineStyle::Diagnostic));
    assert_eq!(all.lines[5], (4, LineStyle::Diagnostic), "a far inert gimmick shows its bytes in debug");
    let quiet = survey_lines(&actors, 200, false);
    assert_eq!(quiet.lines[5], (4, LineStyle::Hidden));
}

use desert_tooling::looter::target::{classify, is_dead_animal, is_skinnable_carcass, CreatureTables};

#[test]
fn a_gimmick_is_classified_by_its_record_and_a_creature_by_its_components() {
    let (mem, md) = world();
    let tables = CreatureTables { catchable_types: vec![3, 6], npc_classes: vec![0x33] };
    let player = 0x7777_0000usize;
    let gather = Some(NodeIdentity { index: 1, key: Some(5), name: Some("ore_a".to_string()), family: Some(LooterFamily::Ore) });
    assert_eq!(classify(&mem, &md, ACTOR, ACTOR, &tables, &gather), Kind::Player);
    assert_eq!(classify(&mem, &md, ACTOR, player, &tables, &gather), Kind::Gather);
    assert_eq!(classify(&mem, &md, ACTOR, player, &tables, &None), Kind::Interactable);
    assert_eq!(classify(&mem, &md, STATUS, player, &tables, &None), Kind::Other, "no gimmick component at all");
    assert!(!is_dead_animal(&mem, &md, ACTOR, &tables), "no type byte reads");
    assert!(!is_skinnable_carcass(&mem, &md, ACTOR, &tables));
}
