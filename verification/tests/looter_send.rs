use desert_tooling::looter::events::{
    queue_ready, Descriptor, EventApi, Events, PickupRequest, RouteError, SendAction, SendRefusal, SendReply,
};
use desert_tooling::looter::memory::{Memory, Region};
use desert_tooling::looter::payload::PickupMode;

const HEAP: usize = 0x3000_0000;
const SLOT: usize = HEAP;
const QUEUE: usize = HEAP + 0x100;
const ROUTER: usize = HEAP + 0x200;
const TABLE_P: usize = HEAP + 0x300;
const TABLE: usize = HEAP + 0x400;
const DESC: usize = HEAP + 0x800;

fn api() -> EventApi {
    EventApi {
        prepare: 1,
        desc_by_id: 2,
        alloc_event: 3,
        enqueue: 4,
        queue_slot: SLOT,
        desc_mask: 5,
        steal_check: 6,
        steal_ctx: 7,
    }
}

fn desc(id: u16, size: u16) -> Descriptor {
    Descriptor { id, ptr: DESC, payload_size: size, dispatch: 0, name: "d".to_string() }
}

fn put(buf: &mut [u8], at: usize, bytes: &[u8]) {
    buf[at - HEAP..at - HEAP + bytes.len()].copy_from_slice(bytes);
}

/// A queue whose router's first table holds, for route 2, entry 0xBEEF.
fn queue_memory() -> Memory {
    let mut heap = vec![0u8; 0x1000];
    put(&mut heap, SLOT, &(QUEUE as u64).to_le_bytes());
    put(&mut heap, QUEUE + 0x38, &(ROUTER as u64).to_le_bytes());
    put(&mut heap, ROUTER + 0x38, &(TABLE_P as u64).to_le_bytes());
    put(&mut heap, TABLE_P, &(TABLE as u64).to_le_bytes());
    put(&mut heap, TABLE + 2 * 0x10, &0xBEEFu64.to_le_bytes());
    Memory { regions: vec![Region { base: HEAP, bytes: heap }] }
}

#[test]
fn each_mode_is_sent_with_its_own_descriptor_and_payload_size() {
    let mut e = Events::new();
    assert!(matches!(e.pickup_descriptor(PickupMode::Gather), Err(SendRefusal::NoApi)));
    e.set_api(api());
    assert!(matches!(e.pickup_descriptor(PickupMode::Gather), Err(SendRefusal::NoDescriptor(PickupMode::Gather))));
    e.set_descriptor(desc(10, 13));
    e.set_catch_descriptor(desc(11, 9));
    e.set_skin_descriptor(desc(12, 7));
    assert_eq!(e.pickup_descriptor(PickupMode::Gather).map(|d| d.id).ok(), Some(10));
    assert_eq!(e.pickup_descriptor(PickupMode::Item).map(|d| d.id).ok(), Some(10));
    assert_eq!(e.pickup_descriptor(PickupMode::Skin).map(|d| d.id).ok(), Some(12));
    assert!(matches!(
        e.pickup_descriptor(PickupMode::Catch),
        Err(SendRefusal::PayloadSize { size: 9, want: 8 })
    ));
}

#[test]
fn a_steal_verdict_other_than_no_remembers_the_entity() {
    let mut e = Events::new();
    assert!(e.steal_outcome(1, Ok(false)).is_ok());
    assert!(!e.is_owned(1));
    assert!(matches!(e.steal_outcome(2, Ok(true)), Err(SendRefusal::Stealing)));
    assert!(e.is_owned(2));
    match e.steal_outcome(3, Err("owner unreadable".to_string())) {
        Err(SendRefusal::OwnershipUnknown(s)) => assert_eq!(s, "owner unreadable"),
        other => panic!("unexpected {:?}", other),
    }
    assert!(e.is_owned(3));
}

#[test]
fn the_queue_and_route_are_checked_before_the_game_is_called() {
    let mem = queue_memory();
    assert_eq!(queue_ready(&mem, &api(), DESC, 0).ok(), Some(None));
    assert_eq!(queue_ready(&mem, &api(), DESC, 2).ok(), Some(Some(0xBEEF)));
    assert_eq!(queue_ready(&mem, &api(), DESC, 3).ok(), Some(None), "a null entry is the game's own refusal");
    assert!(matches!(queue_ready(&mem, &api(), HEAP + 0xFF0, 0), Err(SendRefusal::DescriptorVanished)));
    assert!(matches!(
        queue_ready(&mem, &api(), DESC, 0x1000_0002),
        Err(SendRefusal::Route(RouteError::Table(0x40)))
    ));
    let empty = Memory { regions: vec![] };
    assert!(matches!(queue_ready(&empty, &api(), DESC, 0), Err(SendRefusal::QueueUnreadable)));
}

fn req(eid: u32, mode: PickupMode, route: u32) -> PickupRequest {
    PickupRequest { target_eid: eid, record: 0, mode, target_actor: 0, player_actor: 0, player_eid: 0, route, flag: 0, cat: 0 }
}

fn ready_events() -> Events {
    let mut e = Events::new();
    e.set_api(api());
    e.set_descriptor(desc(10, 13));
    e.set_catch_descriptor(desc(11, 8));
    e.set_skin_descriptor(desc(12, 7));
    e
}

#[test]
fn a_send_checks_the_size_then_the_owner_then_the_queue() {
    let mem = queue_memory();
    let mut e = ready_events();
    let gather = req(5, PickupMode::Gather, 2);
    assert!(matches!(e.send_step(&mem, &gather, SendReply::Start), SendAction::AskSteal));
    assert!(matches!(
        e.send_step(&mem, &gather, SendReply::Steal(Ok(false))),
        SendAction::Enqueue { desc: DESC, entry: Some(0xBEEF) }
    ));
    assert!(!e.is_owned(5));
    assert!(matches!(e.send_step(&mem, &gather, SendReply::Steal(Ok(true))), SendAction::Refuse(SendRefusal::Stealing)));
    assert!(e.is_owned(5), "a refused steal is remembered and nothing is enqueued");
    let empty = Memory { regions: vec![] };
    assert!(matches!(
        e.send_step(&empty, &gather, SendReply::Steal(Ok(false))),
        SendAction::Refuse(SendRefusal::QueueUnreadable)
    ));
}

#[test]
fn a_skin_runs_the_carcass_checks_and_never_the_steal_check() {
    let mem = queue_memory();
    let mut e = ready_events();
    let skin = req(7, PickupMode::Skin, 0);
    assert!(matches!(e.send_step(&mem, &skin, SendReply::Start), SendAction::Preflight));
    assert!(matches!(e.send_step(&mem, &skin, SendReply::Preflight(Ok(()))), SendAction::Enqueue { desc: DESC, entry: None }));
    match e.send_step(&mem, &skin, SendReply::Preflight(Err("type byte unreadable".to_string()))) {
        SendAction::Refuse(SendRefusal::Preflight(s)) => assert_eq!(s, "type byte unreadable"),
        _ => panic!("a failed preflight refuses"),
    }
    assert!(!e.is_owned(7), "a skin never marks anything owned");
}

#[test]
fn a_wrong_payload_size_is_refused_before_anything_else() {
    let mem = queue_memory();
    let mut e = Events::new();
    e.set_api(api());
    e.set_catch_descriptor(desc(11, 9));
    let catch = req(9, PickupMode::Catch, 0);
    assert!(matches!(
        e.send_step(&mem, &catch, SendReply::Start),
        SendAction::Refuse(SendRefusal::PayloadSize { size: 9, want: 8 })
    ));
    let mut none = Events::new();
    assert!(matches!(none.send_step(&mem, &catch, SendReply::Start), SendAction::Refuse(SendRefusal::NoApi)));
}
