//! Byte layout of the three forged events: the 13-byte `PickUpItem` payload
//! for gather nodes and ground items, the 8-byte catch payload for insects
//! and the 7-byte dead-drop payload for carcasses.

use vstd::prelude::*;

use crate::strings::{all_ascii, ascii_str, ascii_string};

verus! {

pub const PICKUP_ID_EXPECTED: u16 = 2057;
pub const PICKUP_PAYLOAD_SIZE: usize = 13;
/// Payload byte 3 for gathering.
pub const GATHER_MODE: u8 = 5;
pub const GATHER_TAIL: u32 = 0xFF01_0000;
/// Payload byte 3 for a ground item.
pub const ITEM_MODE: u8 = 0;
pub const ITEM_TAIL: u32 = 0xFF00_0101;

pub const CATCH_ID_EXPECTED: u16 = 2048;
pub const CATCH_PAYLOAD_SIZE: usize = 8;
/// The trailing byte the game itself writes on a catch.
pub const CATCH_TAIL: u8 = 3;

pub const SKIN_ID_EXPECTED: u16 = 2024;
pub const SKIN_PAYLOAD_SIZE: usize = 7;

/// The descriptor names, by which the events are resolved at start.
pub const PICKUP_DESCRIPTOR: &'static str = "TrocTrProcessPickUpItemOnceTimer";
pub const CATCH_DESCRIPTOR: &'static str = "TrocTrPushCharacterToInventoryOnceTimer";
pub const SKIN_DESCRIPTOR: &'static str = "TrocTrProcessLootingDeadDropOnceTimer";

#[derive(Debug, Clone, Copy, PartialEq, Eq, Structural)]
pub enum PickupMode {
    /// A gather node (plant, vein, rock, wood): mode byte 5.
    Gather,
    /// An item lying on the ground: mode byte 0, different tail word.
    Item,
    /// An insect: its own descriptor and the 8-byte catch payload.
    Catch,
    /// An animal carcass: a third descriptor and the 7-byte payload.
    Skin,
}

impl PickupMode {
    /// Which of the three descriptors this mode's event is built from.
    pub fn descriptor_name(self) -> (r: &'static str)
        ensures
            r@ == match self {
                PickupMode::Gather | PickupMode::Item => PICKUP_DESCRIPTOR@,
                PickupMode::Catch => CATCH_DESCRIPTOR@,
                PickupMode::Skin => SKIN_DESCRIPTOR@,
            },
    {
        match self {
            PickupMode::Gather | PickupMode::Item => PICKUP_DESCRIPTOR,
            PickupMode::Catch => CATCH_DESCRIPTOR,
            PickupMode::Skin => SKIN_DESCRIPTOR,
        }
    }
}

/// Little-endian bytes of a `u16`.
pub open spec fn le16(v: u16) -> Seq<u8> {
    seq![(v % 256) as u8, (v / 256) as u8]
}

/// Little-endian bytes of a `u32`.
pub open spec fn le32(v: u32) -> Seq<u8> {
    seq![(v % 256) as u8, ((v / 256) % 256) as u8, ((v / 65536) % 256) as u8, (v / 16777216) as u8]
}

/// What [`pickup_payload`] builds for a mode that has one.
pub open spec fn pickup_spec(id: u16, target_eid: u32, mode_byte: u8, tail: u32) -> Seq<u8> {
    le16(id) + seq![0xFFu8, mode_byte] + le32(target_eid) + le32(tail) + seq![0u8]
}

/// What [`catch_payload`] builds.
pub open spec fn catch_spec(id: u16, target_eid: u32) -> Seq<u8> {
    le16(id) + seq![0xFFu8] + le32(target_eid) + seq![CATCH_TAIL]
}

/// What [`skin_payload`] builds: the catch payload without its tail byte.
pub open spec fn skin_spec(id: u16, target_eid: u32) -> Seq<u8> {
    le16(id) + seq![0xFFu8] + le32(target_eid)
}

fn le16_exec(v: u16) -> (r: (u8, u8))
    ensures
        seq![r.0, r.1] == le16(v),
{
    ((v % 256) as u8, (v / 256) as u8)
}

fn le32_exec(v: u32) -> (r: (u8, u8, u8, u8))
    ensures
        seq![r.0, r.1, r.2, r.3] == le32(v),
{
    ((v % 256) as u8, ((v / 256) % 256) as u8, ((v / 65536) % 256) as u8, (v / 16777216) as u8)
}

/// The 13-byte `PickUpItem` payload. Neither `Catch` nor `Skin` is a
/// `PickUpItem` at all, so asking for either returns `None` rather than a
/// plausible-looking wrong event aimed at a live actor.
pub fn pickup_payload(id: u16, target_eid: u32, mode: PickupMode) -> (r: Option<[u8; PICKUP_PAYLOAD_SIZE]>)
    ensures
        match mode {
            PickupMode::Gather => r matches Some(p) && p@ == pickup_spec(id, target_eid, GATHER_MODE, GATHER_TAIL),
            PickupMode::Item => r matches Some(p) && p@ == pickup_spec(id, target_eid, ITEM_MODE, ITEM_TAIL),
            PickupMode::Catch | PickupMode::Skin => r is None,
        },
{
    let (b3, tail) = match mode {
        PickupMode::Gather => (GATHER_MODE, GATHER_TAIL),
        PickupMode::Item => (ITEM_MODE, ITEM_TAIL),
        PickupMode::Catch | PickupMode::Skin => return None,
    };
    let (i0, i1) = le16_exec(id);
    let (e0, e1, e2, e3) = le32_exec(target_eid);
    let (t0, t1, t2, t3) = le32_exec(tail);
    let p: [u8; PICKUP_PAYLOAD_SIZE] = [i0, i1, 0xFF, b3, e0, e1, e2, e3, t0, t1, t2, t3, 0];
    assert(p@ =~= pickup_spec(id, target_eid, b3, tail));
    Some(p)
}

/// The 8-byte `PushCharacterToInventory` payload.
pub fn catch_payload(id: u16, target_eid: u32) -> (r: [u8; CATCH_PAYLOAD_SIZE])
    ensures
        r@ == catch_spec(id, target_eid),
{
    let (i0, i1) = le16_exec(id);
    let (e0, e1, e2, e3) = le32_exec(target_eid);
    let p: [u8; CATCH_PAYLOAD_SIZE] = [i0, i1, 0xFF, e0, e1, e2, e3, CATCH_TAIL];
    assert(p@ =~= catch_spec(id, target_eid));
    p
}

/// The 7-byte `ProcessLootingDeadDrop` payload.
pub fn skin_payload(id: u16, target_eid: u32) -> (r: [u8; SKIN_PAYLOAD_SIZE])
    ensures
        r@ == skin_spec(id, target_eid),
{
    let (i0, i1) = le16_exec(id);
    let (e0, e1, e2, e3) = le32_exec(target_eid);
    let p: [u8; SKIN_PAYLOAD_SIZE] = [i0, i1, 0xFF, e0, e1, e2, e3];
    assert(p@ =~= skin_spec(id, target_eid));
    p
}

/// A skin payload is a catch payload with its tail byte left off.
pub proof fn lemma_skin_is_catch_without_tail(id: u16, target_eid: u32)
    ensures
        skin_spec(id, target_eid) == catch_spec(id, target_eid).take(SKIN_PAYLOAD_SIZE as int),
        catch_spec(id, target_eid).len() == SKIN_PAYLOAD_SIZE + 1,
{
    assert(skin_spec(id, target_eid) =~= catch_spec(id, target_eid).take(SKIN_PAYLOAD_SIZE as int));
}

/// Upper-case hex digit.
pub open spec fn hex_digit(n: u8) -> u8 {
    if n < 10 { (0x30 + n) as u8 } else { (0x37 + n) as u8 }
}

/// Two upper-case hex digits per byte, separated by single spaces.
pub open spec fn hex_spec(bytes: Seq<u8>) -> Seq<u8>
    decreases bytes.len(),
{
    if bytes.len() == 0 {
        seq![]
    } else if bytes.len() == 1 {
        seq![hex_digit(bytes[0] / 16), hex_digit(bytes[0] % 16)]
    } else {
        hex_spec(bytes.drop_last()) + seq![0x20u8, hex_digit(bytes.last() / 16), hex_digit(bytes.last() % 16)]
    }
}

proof fn lemma_hex_ascii(bytes: Seq<u8>)
    ensures
        all_ascii(hex_spec(bytes)),
    decreases bytes.len(),
{
    if bytes.len() > 1 {
        lemma_hex_ascii(bytes.drop_last());
    }
}

fn hex_digit_exec(n: u8) -> (r: u8)
    requires
        n < 16,
    ensures
        r == hex_digit(n),
{
    if n < 10 { 0x30 + n } else { 0x37 + n }
}

/// `09 08 FF`: the bytes as upper-case hex pairs.
pub fn hex(bytes: &[u8]) -> (r: String)
    ensures
        r@ == ascii_str(hex_spec(bytes@)),
{
    let mut out: Vec<u8> = Vec::new();
    let mut i: usize = 0;
    while i < bytes.len()
        invariant
            0 <= i <= bytes.len(),
            out@ == hex_spec(bytes@.take(i as int)),
        decreases bytes.len() - i,
    {
        let b = bytes[i];
        if i > 0 {
            out.push(0x20);
        }
        out.push(hex_digit_exec(b / 16));
        out.push(hex_digit_exec(b % 16));
        proof {
            let t = bytes@.take(i + 1);
            assert(t.drop_last() =~= bytes@.take(i as int));
            assert(t.last() == b);
            if i == 0 {
                assert(t.len() == 1);
            }
            assert(out@ =~= hex_spec(t));
        }
        i = i + 1;
    }
    proof {
        assert(bytes@.take(bytes@.len() as int) =~= bytes@);
        lemma_hex_ascii(bytes@);
    }
    ascii_string(out)
}

} // verus!
