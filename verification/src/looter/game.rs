//! The looter's anchors in the game: the signature hits resolved at start,
//! the actor manager's global slot, and the per-tick reading of the player.

use vstd::prelude::*;
use vstd::utf8::*;

use crate::looter::actors::{
    find_manager, find_manager_upto, interaction_category, interaction_category_spec, DataSection,
    InventoryTab, MANAGER_SIZE,
};
use crate::looter::memory::{ptr_at, readable, u32_at, MainModule, Memory, SpecRegion};
use crate::strings::{ascii_str, ascii_string, all_ascii, idec_spec, lemma_idec_ascii, str_eq};

verus! {

/// What signature resolution found: every named hit, and the names that
/// were not found.
pub struct Anchors {
    pub hits: Vec<(&'static str, usize)>,
    pub missing: Vec<&'static str>,
    pub actor_manager_vtables: Vec<u64>,
}

/// The address of the first hit named `name`.
pub open spec fn anchor_spec(hits: Seq<(&'static str, usize)>, name: Seq<char>) -> Option<usize>
    decreases hits.len(),
{
    if hits.len() == 0 {
        None
    } else if hits[0].0@ == name {
        Some(hits[0].1)
    } else {
        anchor_spec(hits.skip(1), name)
    }
}

impl Anchors {
    /// The address of the first hit with this name.
    pub fn get(&self, name: &str) -> (r: Option<usize>)
        ensures
            r == anchor_spec(self.hits@, name@),
            match r {
                Some(a) => exists|j: int| 0 <= j < self.hits@.len() && (#[trigger] self.hits@[j]).0@ == name@
                    && self.hits@[j].1 == a && forall|k: int| 0 <= k < j ==> (#[trigger] self.hits@[k]).0@ != name@,
                None => forall|k: int| 0 <= k < self.hits@.len() ==> (#[trigger] self.hits@[k]).0@ != name@,
            },
    {
        let mut i: usize = 0;
        proof {
            assert(self.hits@.skip(0) =~= self.hits@);
        }
        while i < self.hits.len()
            invariant
                0 <= i <= self.hits@.len(),
                forall|k: int| 0 <= k < i ==> (#[trigger] self.hits@[k]).0@ != name@,
                anchor_spec(self.hits@, name@) == anchor_spec(self.hits@.skip(i as int), name@),
            decreases self.hits@.len() - i,
        {
            proof {
                assert(self.hits@.skip(i as int)[0] == self.hits@[i as int]);
                assert(self.hits@.skip(i as int).skip(1) =~= self.hits@.skip(i + 1));
            }
            let (n, a) = self.hits[i];
            if str_eq(n, name) {
                assert(self.hits@[i as int].0@ == name@);
                return Some(a);
            }
            i = i + 1;
        }
        None
    }
}

/// Where the actor manager lives: its global slot and the object.
#[derive(Debug, Clone, Copy, PartialEq, Eq, Structural)]
pub struct World {
    pub manager_slot: usize,
    pub manager: usize,
}

/// The manager re-read through its global slot, which the game re-creates
/// on loading screens: the pointer there, when a whole manager reads.
pub fn find_manager_current(mem: &Memory, w: &World) -> (r: Option<usize>)
    ensures
        r == match ptr_at(mem@, w.manager_slot as int) {
            Some(p) if readable(mem@, p as int, MANAGER_SIZE as int) => Some(p),
            _ => None,
        },
{
    match mem.ptr_at(w.manager_slot, 0) {
        Some(p) => if mem.readable(p, MANAGER_SIZE) { Some(p) } else { None },
        None => None,
    }
}

/// The route the game's own event builder copies from `actor+0x58`.
pub const PLAYER_ROUTE_OFF: usize = 0x58;

pub fn player_route(mem: &Memory, player: usize) -> (r: Option<u32>)
    ensures
        r == u32_at(mem@, player + PLAYER_ROUTE_OFF),
{
    mem.u32_at(player, PLAYER_ROUTE_OFF)
}

/// `id:used/max` for one tab.
pub open spec fn tab_text(t: InventoryTab) -> Seq<u8> {
    idec_spec(t.id as int) + seq![0x3Au8] + idec_spec(t.used as int) + seq![0x2Fu8] + idec_spec(t.max as int)
}

/// Every tab's text, separated by single spaces.
pub open spec fn tabs_text(tabs: Seq<InventoryTab>) -> Seq<u8>
    decreases tabs.len(),
{
    if tabs.len() == 0 {
        seq![]
    } else if tabs.len() == 1 {
        tab_text(tabs[0])
    } else {
        tabs_text(tabs.drop_last()) + seq![0x20u8] + tab_text(tabs.last())
    }
}

proof fn lemma_tabs_text_ascii(tabs: Seq<InventoryTab>)
    ensures
        all_ascii(tabs_text(tabs)),
    decreases tabs.len(),
{
    if tabs.len() > 0 {
        let t = tabs.last();
        lemma_idec_ascii(t.id as int);
        lemma_idec_ascii(t.used as int);
        lemma_idec_ascii(t.max as int);
        if tabs.len() > 1 {
            lemma_tabs_text_ascii(tabs.drop_last());
        }
        assert(tabs.len() == 1 ==> tabs[0] == t);
    }
}

fn push_idec(out: &mut Vec<u8>, n: i16)
    ensures
        final(out)@ == old(out)@ + idec_spec(n as int),
{
    if n < 0 {
        out.push(0x2D);
        crate::strings::push_dec(out, (-(n as i32)) as u64);
    } else {
        crate::strings::push_dec(out, n as u64);
    }
    proof {
        assert(final(out)@ =~= old(out)@ + idec_spec(n as int));
    }
}

/// `"1:12/40 2:0/8"`: each tab's id, used and capacity.
pub fn tabs_summary(tabs: &[InventoryTab]) -> (r: String)
    ensures
        r@ == ascii_str(tabs_text(tabs@)),
{
    let mut out: Vec<u8> = Vec::new();
    let mut i: usize = 0;
    while i < tabs.len()
        invariant
            0 <= i <= tabs@.len(),
            out@ == tabs_text(tabs@.take(i as int)),
        decreases tabs@.len() - i,
    {
        let t = tabs[i];
        if i > 0 {
            out.push(0x20);
        }
        push_idec(&mut out, t.id);
        out.push(0x3A);
        push_idec(&mut out, t.used);
        out.push(0x2F);
        push_idec(&mut out, t.max);
        proof {
            let s = tabs@.take(i + 1);
            assert(s.drop_last() =~= tabs@.take(i as int));
            assert(s.last() == t);
            if i == 0 {
                assert(s.len() == 1);
                assert(s[0] == t);
            }
            assert(out@ =~= tabs_text(s));
        }
        i = i + 1;
    }
    proof {
        assert(tabs@.take(tabs@.len() as int) =~= tabs@);
        lemma_tabs_text_ascii(tabs@);
    }
    ascii_string(out)
}

/// The actor manager, through the data-section global that points at an
/// object starting with one of its vtables.
pub fn find_world(mem: &Memory, md: &MainModule, sections: &[DataSection], a: &Anchors) -> (r: Option<World>)
    ensures
        r == match find_manager_upto(mem@, *md, sections@, a.actor_manager_vtables@, sections@.len() as int) {
            Some((slot, obj)) => Some(World { manager_slot: slot, manager: obj }),
            None => None,
        },
{
    match find_manager(mem, md, sections, a.actor_manager_vtables.as_slice()) {
        Some((slot, obj)) => Some(World { manager_slot: slot, manager: obj }),
        None => None,
    }
}

/// `{:02X}` of a byte.
pub open spec fn hex2(c: u8) -> Seq<u8> {
    seq![crate::strings::hex_upper_digit((c / 16) as int), crate::strings::hex_upper_digit((c % 16) as int)]
}

/// The interaction category as two hex digits, or `?` when the status
/// component is not there or does not read.
pub fn category_text(mem: &Memory, md: &MainModule, actor: usize) -> (r: String)
    ensures
        encode_utf8(r@) == match interaction_category_spec(mem@, *md, actor as int) {
            Some(c) => hex2(c),
            None => seq![0x3Fu8],
        },
{
    let mut v: Vec<u8> = Vec::new();
    match interaction_category(mem, md, actor) {
        Some(c) => {
            let hi = c / 16;
            let lo = c % 16;
            v.push(if hi < 10 {
                0x30 + hi
            } else {
                0x41 + hi - 10
            });
            v.push(if lo < 10 {
                0x30 + lo
            } else {
                0x41 + lo - 10
            });
            assert(v@ =~= hex2(c));
        },
        None => {
            v.push(0x3F);
            assert(v@ =~= seq![0x3Fu8]);
        },
    }
    proof {
        crate::strings::lemma_ascii_encode(v@);
    }
    ascii_string(v)
}

} // verus!
