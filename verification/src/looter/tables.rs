//! Lookups in the game's record tables (`iteminfo`, `gimmickinfo`): a
//! manager object reached through a global slot, a record count at `+8` and
//! a record pointer array at `+0x58`.

use vstd::prelude::*;
use std::collections::HashMap;

use crate::looter::memory::{
    addr, byte_at, cstr_at, i16_at, lemma_cstr_ascii, ptr_at, readable, u32_at, u64_at, offset, MainModule, Memory, SpecRegion,
};
use vstd::utf8::encode_utf8;
use crate::strings::lit;

verus! {

broadcast use vstd::std_specs::hash::group_hash_axioms;

/// Where the two table managers' global slots were found at start, as RVAs.
#[derive(Debug, Clone, Copy, PartialEq, Eq, Structural)]
pub struct TableSlots {
    pub item: Option<usize>,
    pub gimmick: Option<usize>,
}

pub const GIMMICK_KEY_OFF: usize = 0x08;
pub const ITEM_TAB_OFF: usize = 0x428;
/// A record count at or above this means the layout is not what we think.
pub const MAX_RECORDS: u32 = 0x40000;

/// One output of a gimmick record: item, and the yield range.
#[derive(Debug, Clone, Copy, PartialEq, Eq, Structural)]
pub struct DropOutput {
    pub item: u32,
    pub min: u64,
    pub max: u64,
}

/// The manager behind a global slot.
pub open spec fn manager_spec(m: Seq<SpecRegion>, module: MainModule, slot_rva: int) -> Option<usize> {
    ptr_at(m, module.base + slot_rva)
}

pub fn manager_at(mem: &Memory, module: &MainModule, slot_rva: usize) -> (r: Option<usize>)
    ensures
        r == manager_spec(mem@, *module, slot_rva as int),
{
    mem.ptr_at(module.base, slot_rva)
}

/// The record count of a table, when it is a plausible one.
pub fn record_count(mem: &Memory, module: &MainModule, slot_rva: usize) -> (r: Option<u32>)
    ensures
        r == match manager_spec(mem@, *module, slot_rva as int) {
            Some(inner) => match u32_at(mem@, inner + 8) {
                Some(n) if n > 0 && n < MAX_RECORDS => Some(n),
                _ => None,
            },
            None => None,
        },
{
    let inner = match manager_at(mem, module, slot_rva) {
        Some(v) => v,
        None => return None,
    };
    match mem.u32_at(inner, 8) {
        Some(n) => if n > 0 && n < MAX_RECORDS { Some(n) } else { None },
        None => None,
    }
}

/// Record `index` of the table behind `slot`, when the index is below the
/// table's count.
pub open spec fn record_spec(m: Seq<SpecRegion>, module: MainModule, slot: Option<usize>, index: int) -> Option<usize> {
    match slot {
        None => None,
        Some(rva) => match manager_spec(m, module, rva as int) {
            None => None,
            Some(mgr) => match u32_at(m, mgr + 8) {
                None => None,
                Some(count) => if index >= count {
                    None
                } else {
                    match ptr_at(m, mgr + 0x58) {
                        Some(arr) => ptr_at(m, arr + index * 8),
                        None => None,
                    }
                },
            },
        },
    }
}

fn record_exec(mem: &Memory, module: &MainModule, slot: Option<usize>, index: u16) -> (r: Option<usize>)
    ensures
        r == record_spec(mem@, *module, slot, index as int),
{
    let rva = match slot {
        Some(v) => v,
        None => return None,
    };
    let mgr = match manager_at(mem, module, rva) {
        Some(v) => v,
        None => return None,
    };
    let count = match mem.u32_at(mgr, 8) {
        Some(v) => v,
        None => return None,
    };
    if index as u32 >= count {
        return None;
    }
    let arr = match mem.ptr_at(mgr, 0x58) {
        Some(v) => v,
        None => return None,
    };
    mem.ptr_at(arr, index as usize * 8)
}

/// A gimmick record by its index.
pub fn gimmick_record(mem: &Memory, module: &MainModule, slots: &TableSlots, index: u16) -> (r: Option<usize>)
    ensures
        r == record_spec(mem@, *module, slots.gimmick, index as int),
{
    record_exec(mem, module, slots.gimmick, index)
}

/// An item record by its index.
pub fn item_record(mem: &Memory, module: &MainModule, slots: &TableSlots, index: u16) -> (r: Option<usize>)
    ensures
        r == record_spec(mem@, *module, slots.item, index as int),
{
    record_exec(mem, module, slots.item, index)
}

/// A gimmick record's key.
pub fn gimmick_record_key(mem: &Memory, rec: usize) -> (r: Option<u32>)
    ensures
        r == u32_at(mem@, rec + GIMMICK_KEY_OFF),
{
    mem.u32_at(rec, GIMMICK_KEY_OFF)
}

/// An item record's key: its first word.
pub fn item_record_key(mem: &Memory, rec: usize) -> (r: Option<u32>)
    ensures
        r == u32_at(mem@, rec as int),
{
    mem.u32_at(rec, 0)
}

/// The inventory tab an item record goes to.
pub fn item_record_tab(mem: &Memory, rec: usize) -> (r: Option<i16>)
    ensures
        r == i16_at(mem@, rec + ITEM_TAB_OFF),
{
    mem.i16_at(rec, ITEM_TAB_OFF)
}

/// Whether record `i` of the array at `arr` is one whose first word is
/// `key`.
pub open spec fn item_has_key(m: Seq<SpecRegion>, arr: int, i: int, key: u32) -> bool {
    match ptr_at(m, arr + i * 8) {
        Some(rec) => u32_at(m, rec as int) == Some(key),
        None => false,
    }
}

/// The first record at or after `i`, below `n`, whose key is `key`.
pub open spec fn first_key_from(m: Seq<SpecRegion>, arr: int, i: int, n: int, key: u32) -> Option<int>
    decreases n - i,
{
    if i >= n {
        None
    } else if item_has_key(m, arr, i, key) {
        Some(i)
    } else {
        first_key_from(m, arr, i + 1, n, key)
    }
}

proof fn lemma_first_key_found(m: Seq<SpecRegion>, arr: int, j: int, n: int, key: u32, i: int)
    requires
        0 <= j <= i < n,
        forall|k: int| j <= k < i ==> !#[trigger] item_has_key(m, arr, k, key),
        item_has_key(m, arr, i, key),
    ensures
        first_key_from(m, arr, j, n, key) == Some(i),
    decreases i - j,
{
    if j < i {
        lemma_first_key_found(m, arr, j + 1, n, key, i);
    }
}

proof fn lemma_first_key_none(m: Seq<SpecRegion>, arr: int, j: int, n: int, key: u32)
    requires
        0 <= j,
        forall|k: int| j <= k < n ==> !#[trigger] item_has_key(m, arr, k, key),
    ensures
        first_key_from(m, arr, j, n, key) is None,
    decreases n - j,
{
    if j < n {
        lemma_first_key_none(m, arr, j + 1, n, key);
    }
}

/// The index of the first item record whose key is `key`, when the item
/// table reads and its count is plausible.
pub open spec fn item_index_spec(m: Seq<SpecRegion>, module: MainModule, slots: TableSlots, key: u32) -> Option<u16> {
    match slots.item {
        None => None,
        Some(rva) => match manager_spec(m, module, rva as int) {
            None => None,
            Some(mgr) => match u32_at(m, mgr + 8) {
                None => None,
                Some(count) => if count == 0 || count >= MAX_RECORDS {
                    None
                } else {
                    match ptr_at(m, mgr + 0x58) {
                        None => None,
                        Some(arr) => match first_key_from(m, arr as int, 0, count as int, key) {
                            Some(i) => Some(i as u16),
                            None => None,
                        },
                    }
                },
            },
        },
    }
}

/// The index of the first item record whose key is `key`.
pub fn item_index_by_key(mem: &Memory, module: &MainModule, slots: &TableSlots, key: u32) -> (r: Option<u16>)
    ensures
        r == item_index_spec(mem@, *module, *slots, key),
        match slots.item {
            None => r is None,
            Some(rva) => match manager_spec(mem@, *module, rva as int) {
                None => r is None,
                Some(mgr) => match u32_at(mem@, mgr + 8) {
                    None => r is None,
                    Some(count) => if count == 0 || count >= MAX_RECORDS {
                        r is None
                    } else {
                        match ptr_at(mem@, mgr + 0x58) {
                            None => r is None,
                            Some(arr) => match r {
                                Some(i) => exists|j: int| 0 <= j < count && i == j as u16
                                    && item_has_key(mem@, arr as int, j, key)
                                    && forall|k: int| 0 <= k < j ==> !#[trigger] item_has_key(mem@, arr as int, k, key),
                                None => forall|k: int| 0 <= k < count ==> !#[trigger] item_has_key(mem@, arr as int, k, key),
                            },
                        }
                    },
                },
            },
        },
{
    let rva = match slots.item {
        Some(v) => v,
        None => return None,
    };
    let mgr = match manager_at(mem, module, rva) {
        Some(v) => v,
        None => return None,
    };
    let count = match mem.u32_at(mgr, 8) {
        Some(v) => v,
        None => return None,
    };
    if count == 0 || count >= MAX_RECORDS {
        return None;
    }
    let arr = match mem.ptr_at(mgr, 0x58) {
        Some(v) => v,
        None => return None,
    };
    match first_with_key(mem, arr, count, key) {
        Some(i) => {
            proof {
                lemma_first_key_found(mem@, arr as int, 0, count as int, key, i as int);
            }
            Some(i as u16)
        },
        None => {
            proof {
                lemma_first_key_none(mem@, arr as int, 0, count as int, key);
            }
            None
        },
    }
}

fn first_with_key(mem: &Memory, arr: usize, count: u32, key: u32) -> (r: Option<u32>)
    requires
        count < MAX_RECORDS,
    ensures
        match r {
            Some(i) => i < count && item_has_key(mem@, arr as int, i as int, key)
                && forall|k: int| 0 <= k < i ==> !#[trigger] item_has_key(mem@, arr as int, k, key),
            None => forall|k: int| 0 <= k < count ==> !#[trigger] item_has_key(mem@, arr as int, k, key),
        },
{
    let mut i: u32 = 0;
    while i < count
        invariant
            count < MAX_RECORDS,
            0 <= i <= count,
            forall|k: int| 0 <= k < i ==> !#[trigger] item_has_key(mem@, arr as int, k, key),
        decreases count - i,
    {
        let hit = match mem.ptr_at(arr, i as usize * 8) {
            Some(rec) => match mem.u32_at(rec, 0) {
                Some(k) => k == key,
                None => false,
            },
            None => false,
        };
        if hit {
            return Some(i);
        }
        i = i + 1;
    }
    None
}

/// The key at `key_off` of record `i`, with the record, when both read.
pub open spec fn key_entry(m: Seq<SpecRegion>, arr: int, i: int, key_off: int) -> Option<(u32, usize)> {
    match ptr_at(m, arr + i * 8) {
        Some(rec) => match u32_at(m, rec + key_off) {
            Some(k) => Some((k, rec)),
            None => None,
        },
        None => None,
    }
}

/// The key -> record map of the first `n` records, the first record for a
/// key winning.
pub open spec fn key_map_upto(m: Seq<SpecRegion>, arr: int, n: int, key_off: int) -> Map<u32, usize>
    decreases n,
{
    if n <= 0 {
        Map::empty()
    } else {
        let p = key_map_upto(m, arr, n - 1, key_off);
        match key_entry(m, arr, n - 1, key_off) {
            Some((k, rec)) => if p.contains_key(k) { p } else { p.insert(k, rec) },
            None => p,
        }
    }
}

pub open spec fn key_index_spec(m: Seq<SpecRegion>, module: MainModule, slot_rva: int, key_off: int) -> Map<u32, usize> {
    match manager_spec(m, module, slot_rva) {
        None => Map::empty(),
        Some(mgr) => {
            let n = match u32_at(m, mgr + 8) {
                Some(n) => n as int,
                None => 0,
            };
            match ptr_at(m, mgr + 0x58) {
                None => Map::empty(),
                Some(arr) => if n == 0 || n >= MAX_RECORDS || !readable(m, arr as int, 8 * n) {
                    Map::empty()
                } else {
                    key_map_upto(m, arr as int, n, key_off)
                },
            }
        },
    }
}

/// Every record of a table by the key at `key_off`, the first record for a
/// key winning; empty when the table does not read.
pub fn key_index(mem: &Memory, module: &MainModule, slot_rva: usize, key_off: usize) -> (r: HashMap<u32, usize>)
    ensures
        r@ == key_index_spec(mem@, *module, slot_rva as int, key_off as int),
{
    let mut out: HashMap<u32, usize> = HashMap::new();
    let mgr = match manager_at(mem, module, slot_rva) {
        Some(v) => v,
        None => return out,
    };
    let n: u32 = match mem.u32_at(mgr, 8) {
        Some(v) => v,
        None => 0,
    };
    let arr = match mem.ptr_at(mgr, 0x58) {
        Some(v) => v,
        None => return out,
    };
    if n == 0 || n >= MAX_RECORDS || !mem.readable(arr, 8 * n as usize) {
        return out;
    }
    let mut i: u32 = 0;
    while i < n
        invariant
            0 < n < MAX_RECORDS,
            key_index_spec(mem@, *module, slot_rva as int, key_off as int) == key_map_upto(mem@, arr as int, n as int, key_off as int),
            0 <= i <= n,
            out@ == key_map_upto(mem@, arr as int, i as int, key_off as int),
        decreases n - i,
    {
        match mem.ptr_at(arr, i as usize * 8) {
            Some(rec) => match mem.u32_at(rec, key_off) {
                Some(k) => {
                    if !out.contains_key(&k) {
                        out.insert(k, rec);
                    }
                },
                None => {},
            },
            None => {},
        }
        i = i + 1;
    }
    out
}

// ---------------------------------------------------------------------------
// Record names
// ---------------------------------------------------------------------------

/// A record name: a C string of at least three characters within 64 bytes.
pub open spec fn rec_name_at(m: Seq<SpecRegion>, p: int) -> Option<Seq<u8>> {
    match cstr_at(m, p, 64) {
        Some(s) => if s.len() >= 3 {
            Some(s)
        } else {
            None
        },
        None => None,
    }
}

/// The record name two pointers behind `rec + off`.
pub open spec fn name_behind(m: Seq<SpecRegion>, rec: int, off: int) -> Option<Seq<u8>> {
    match ptr_at(m, rec + off) {
        Some(p) => match ptr_at(m, p as int) {
            Some(q) => rec_name_at(m, q as int),
            None => None,
        },
        None => None,
    }
}

fn name_behind_exec(mem: &Memory, rec: usize, off: usize) -> (r: Option<String>)
    ensures
        r is Some <==> name_behind(mem@, rec as int, off as int) is Some,
        r matches Some(s) ==> encode_utf8(s@) == name_behind(mem@, rec as int, off as int)->0,
{
    let p = match mem.ptr_at(rec, off) {
        Some(p) => p,
        None => return None,
    };
    let q = match mem.read_ptr(p) {
        Some(q) => q,
        None => return None,
    };
    match mem.read_cstr(q, 64) {
        Some(s) => if s.as_str().as_bytes().len() >= 3 {
            Some(s)
        } else {
            None
        },
        None => None,
    }
}

/// A gimmick record's name, `**(rec+0x10)`.
pub fn gimmick_record_name(mem: &Memory, rec: usize) -> (r: Option<String>)
    ensures
        r is Some <==> name_behind(mem@, rec as int, 0x10) is Some,
        r matches Some(s) ==> encode_utf8(s@) == name_behind(mem@, rec as int, 0x10)->0,
{
    name_behind_exec(mem, rec, 0x10)
}

/// An item record's name, `**(rec+0x08)`.
pub fn item_record_name(mem: &Memory, rec: usize) -> (r: Option<String>)
    ensures
        r is Some <==> name_behind(mem@, rec as int, 0x08) is Some,
        r matches Some(s) ==> encode_utf8(s@) == name_behind(mem@, rec as int, 0x08)->0,
{
    name_behind_exec(mem, rec, 0x08)
}

/// A record's name by either layout: the item layout first, then the
/// gimmick one.
pub open spec fn record_name_any_spec(m: Seq<SpecRegion>, rec: int) -> Option<Seq<u8>> {
    match name_behind(m, rec, 0x08) {
        Some(s) => Some(s),
        None => name_behind(m, rec, 0x10),
    }
}

pub fn record_name_any(mem: &Memory, rec: usize) -> (r: Option<String>)
    ensures
        r is Some <==> record_name_any_spec(mem@, rec as int) is Some,
        r matches Some(s) ==> encode_utf8(s@) == record_name_any_spec(mem@, rec as int)->0,
{
    match name_behind_exec(mem, rec, 0x08) {
        Some(s) => Some(s),
        None => name_behind_exec(mem, rec, 0x10),
    }
}

/// The name of record `id` of the table behind a global slot, when the
/// table's count is plausible and the id is below it.
pub open spec fn name_spec(m: Seq<SpecRegion>, module: MainModule, slot_rva: int, id: u32) -> Option<Seq<u8>> {
    match manager_spec(m, module, slot_rva) {
        None => None,
        Some(inner) => match u32_at(m, inner + 8) {
            None => None,
            Some(n) => if n == 0 || n >= MAX_RECORDS || id >= n {
                None
            } else {
                match ptr_at(m, inner + 0x58) {
                    None => None,
                    Some(arr) => match ptr_at(m, arr + id * 8) {
                        Some(rec) => name_behind(m, rec as int, 0x08),
                        None => None,
                    },
                }
            },
        },
    }
}

pub fn name(mem: &Memory, module: &MainModule, slot_rva: usize, id: u32) -> (r: Option<String>)
    ensures
        r is Some <==> name_spec(mem@, *module, slot_rva as int, id) is Some,
        r matches Some(s) ==> encode_utf8(s@) == name_spec(mem@, *module, slot_rva as int, id)->0,
{
    let inner = match manager_at(mem, module, slot_rva) {
        Some(v) => v,
        None => return None,
    };
    let n = match mem.u32_at(inner, 8) {
        Some(n) => n,
        None => return None,
    };
    if n == 0 || n >= MAX_RECORDS || id >= n {
        return None;
    }
    let arr = match mem.ptr_at(inner, 0x58) {
        Some(a) => a,
        None => return None,
    };
    match mem.ptr_at(arr, id as usize * 8) {
        Some(rec) => name_behind_exec(mem, rec, 0x08),
        None => None,
    }
}

/// One candidate line: the tag and the string, when there is one.
pub open spec fn cand(tag: Seq<u8>, c: Option<Seq<u8>>) -> Seq<Seq<u8>> {
    match c {
        Some(s) => seq![tag + s],
        None => seq![],
    }
}

pub open spec fn tag_p() -> Seq<u8> {
    seq![0x70u8, 0x3A]
}

pub open spec fn tag_pp() -> Seq<u8> {
    seq![0x2Au8, 0x70, 0x3A]
}

pub open spec fn tag_ppp() -> Seq<u8> {
    seq![0x2Au8, 0x2A, 0x70, 0x3A]
}

/// The strings at one, two and three pointers behind a gimmick record's
/// `+0x10`, each tagged with its depth (`p:`, `*p:`, `**p:`).
pub open spec fn name_candidates_spec(m: Seq<SpecRegion>, rec: int) -> Seq<Seq<u8>> {
    match ptr_at(m, rec + 0x10) {
        None => seq![],
        Some(p) => cand(tag_p(), cstr_at(m, p as int, 64)) + match ptr_at(m, p as int) {
            None => seq![],
            Some(q) => cand(tag_pp(), cstr_at(m, q as int, 64)) + match ptr_at(m, q as int) {
                None => seq![],
                Some(r) => cand(tag_ppp(), cstr_at(m, r as int, 64)),
            },
        },
    }
}

pub open spec fn strings_view(v: Seq<String>) -> Seq<Seq<u8>> {
    v.map_values(|s: String| encode_utf8(s@))
}

/// Push `tag` and the C string at `p`, when there is one.
fn push_cand(mem: &Memory, out: &mut Vec<String>, tag: &[u8], p: usize)
    requires
        crate::strings::all_ascii(tag@),
    ensures
        strings_view(final(out)@) == strings_view(old(out)@) + cand(tag@, cstr_at(mem@, p as int, 64)),
{
    if let Some(s) = mem.read_cstr(p, 64) {
        let mut b: Vec<u8> = Vec::new();
        crate::text::push_all(&mut b, tag);
        crate::text::push_all(&mut b, s.as_str().as_bytes());
        proof {
            lemma_cstr_ascii(mem@, p as int, 64);
            let c = cstr_at(mem@, p as int, 64)->0;
            assert(b@ =~= tag@ + c);
            assert forall|i: int| 0 <= i < b@.len() implies #[trigger] b@[i] < 128 by {
                if i < tag@.len() {
                    assert(b@[i] == tag@[i]);
                } else {
                    assert(b@[i] == c[i - tag@.len()]);
                }
            }
            crate::strings::lemma_ascii_encode(b@);
        }
        let t = crate::strings::ascii_string(b);
        let ghost before = out@;
        out.push(t);
        proof {
            assert(strings_view(out@) =~= strings_view(before) + seq![tag@ + cstr_at(mem@, p as int, 64)->0]);
        }
    } else {
        proof {
            assert(strings_view(out@) =~= strings_view(old(out)@) + Seq::<Seq<u8>>::empty());
        }
    }
}

pub fn gimmick_name_candidates(mem: &Memory, rec: usize) -> (r: Vec<String>)
    ensures
        strings_view(r@) == name_candidates_spec(mem@, rec as int),
{
    let mut out: Vec<String> = Vec::new();
    let tp: [u8; 2] = [0x70, 0x3A];
    let tpp: [u8; 3] = [0x2A, 0x70, 0x3A];
    let tppp: [u8; 4] = [0x2A, 0x2A, 0x70, 0x3A];
    proof {
        assert(tp@ =~= tag_p());
        assert(tpp@ =~= tag_pp());
        assert(tppp@ =~= tag_ppp());
        assert(strings_view(out@) =~= Seq::<Seq<u8>>::empty());
    }
    if let Some(p) = mem.ptr_at(rec, 0x10) {
        push_cand(mem, &mut out, tp.as_slice(), p);
        let ghost s1 = strings_view(out@);
        if let Some(q) = mem.read_ptr(p) {
            push_cand(mem, &mut out, tpp.as_slice(), q);
            let ghost s2 = strings_view(out@);
            if let Some(r) = mem.read_ptr(q) {
                push_cand(mem, &mut out, tppp.as_slice(), r);
            }
            proof {
                let c3: Seq<Seq<u8>> = match ptr_at(mem@, q as int) {
                    None => seq![],
                    Some(r) => cand(tag_ppp(), cstr_at(mem@, r as int, 64)),
                };
                assert(strings_view(out@) =~= s2 + c3);
                assert(s2 + c3 =~= s1 + (cand(tag_pp(), cstr_at(mem@, q as int, 64)) + c3));
            }
        } else {
            proof {
                assert(strings_view(out@) =~= s1 + Seq::<Seq<u8>>::empty());
            }
        }
    }
    out
}

// ---------------------------------------------------------------------------
// Tables found by the census
// ---------------------------------------------------------------------------

/// Whether `class` is one of `classes`.
pub open spec fn class_listed(classes: Seq<&str>, class: String) -> bool {
    exists|k: int| 0 <= k < classes.len() && (#[trigger] classes[k])@ == class@
}

fn class_listed_exec(classes: &[&str], class: &String) -> (r: bool)
    ensures
        r == class_listed(classes@, *class),
{
    let mut k: usize = 0;
    while k < classes.len()
        invariant
            0 <= k <= classes@.len(),
            forall|j: int| 0 <= j < k ==> (#[trigger] classes@[j])@ != class@,
        decreases classes@.len() - k,
    {
        if crate::strings::str_eq(classes[k], class.as_str()) {
            return true;
        }
        k = k + 1;
    }
    false
}

/// The record count and record array of the table object `obj`, when the
/// count is plausible and the whole array reads.
pub open spec fn table_of(m: Seq<SpecRegion>, obj: int) -> Option<(u32, usize)> {
    match u32_at(m, obj + 8) {
        None => None,
        Some(n) => if n == 0 || n > MAX_RECORDS {
            None
        } else {
            match ptr_at(m, obj + 0x58) {
                None => None,
                Some(arr) => if readable(m, arr as int, 8 * n) {
                    Some((n, arr))
                } else {
                    None
                },
            }
        },
    }
}

fn table_of_exec(mem: &Memory, obj: usize) -> (r: Option<(u32, usize)>)
    ensures
        r == table_of(mem@, obj as int),
{
    let n = match mem.u32_at(obj, 8) {
        Some(n) => n,
        None => return None,
    };
    if n == 0 || n > MAX_RECORDS {
        return None;
    }
    let arr = match mem.ptr_at(obj, 0x58) {
        Some(a) => a,
        None => return None,
    };
    if mem.readable(arr, 8 * n as usize) {
        Some((n, arr))
    } else {
        None
    }
}

/// `acc` with every record of the first `n` of a table mapped to (its
/// table's class, its index), later records overwriting earlier ones.
pub open spec fn pointers_of_table(m: Seq<SpecRegion>, arr: int, class: String, n: int, acc: Map<usize, (String, usize)>) -> Map<usize, (String, usize)>
    decreases n,
{
    if n <= 0 {
        acc
    } else {
        let p = pointers_of_table(m, arr, class, n - 1, acc);
        match ptr_at(m, arr + 8 * (n - 1)) {
            Some(rec) => p.insert(rec, (class, (n - 1) as usize)),
            None => p,
        }
    }
}

pub open spec fn record_pointers_upto(m: Seq<SpecRegion>, census: Seq<(usize, usize, String)>, classes: Seq<&str>, j: int) -> Map<usize, (String, usize)>
    decreases j,
{
    if j <= 0 {
        Map::empty()
    } else {
        let acc = record_pointers_upto(m, census, classes, j - 1);
        let (_, obj, class) = census[j - 1];
        if class_listed(classes, class) {
            match table_of(m, obj as int) {
                Some((n, arr)) => pointers_of_table(m, arr as int, class, n as int, acc),
                None => acc,
            }
        } else {
            acc
        }
    }
}

/// Every record pointer of the census's tables whose class is listed, mapped
/// to (table class, index).
pub fn record_pointer_set(mem: &Memory, census: &[(usize, usize, String)], classes: &[&str]) -> (r: HashMap<usize, (String, usize)>)
    ensures
        r@ == record_pointers_upto(mem@, census@, classes@, census@.len() as int),
{
    let mut out: HashMap<usize, (String, usize)> = HashMap::new();
    let mut j: usize = 0;
    while j < census.len()
        invariant
            0 <= j <= census@.len(),
            out@ == record_pointers_upto(mem@, census@, classes@, j as int),
        decreases census@.len() - j,
    {
        let class = &census[j].2;
        let obj = census[j].1;
        if class_listed_exec(classes, class) {
            if let Some((n, arr)) = table_of_exec(mem, obj) {
                let ghost acc = out@;
                let mut i: u32 = 0;
                while i < n
                    invariant
                        0 < n <= MAX_RECORDS,
                        0 <= i <= n,
                        out@ == pointers_of_table(mem@, arr as int, *class, i as int, acc),
                    decreases n - i,
                {
                    if let Some(rec) = mem.ptr_at(arr, 8 * i as usize) {
                        out.insert(rec, (class.clone(), i as usize));
                    }
                    i = i + 1;
                }
            }
        }
        j = j + 1;
    }
    out
}

/// The keys at `+0` and `+8` of a record that look like keys: above 0xFFFF
/// and not all ones.
pub open spec fn key_like(k: u32) -> bool {
    k > 0xFFFF && k != 0xFFFF_FFFF
}

/// `acc` with (class, index, record) appended under `k`.
pub open spec fn add_hit(acc: Map<u32, Seq<(String, usize, usize)>>, k: u32, hit: (String, usize, usize)) -> Map<u32, Seq<(String, usize, usize)>> {
    acc.insert(
        k,
        if acc.contains_key(k) {
            acc[k].push(hit)
        } else {
            seq![hit]
        },
    )
}

/// `acc` with the key-like words at `+koff` for `koff` in `0, 8` of one
/// record.
pub open spec fn keys_of_record(m: Seq<SpecRegion>, rec: usize, class: String, i: int, acc: Map<u32, Seq<(String, usize, usize)>>) -> Map<u32, Seq<(String, usize, usize)>> {
    let a1 = match u32_at(m, rec as int) {
        Some(k) => if key_like(k) {
            add_hit(acc, k, (class, i as usize, rec))
        } else {
            acc
        },
        None => acc,
    };
    match u32_at(m, rec + 8) {
        Some(k) => if key_like(k) {
            add_hit(a1, k, (class, i as usize, rec))
        } else {
            a1
        },
        None => a1,
    }
}

pub open spec fn keys_of_table(m: Seq<SpecRegion>, arr: int, class: String, n: int, acc: Map<u32, Seq<(String, usize, usize)>>) -> Map<u32, Seq<(String, usize, usize)>>
    decreases n,
{
    if n <= 0 {
        acc
    } else {
        let p = keys_of_table(m, arr, class, n - 1, acc);
        match ptr_at(m, arr + 8 * (n - 1)) {
            Some(rec) => keys_of_record(m, rec, class, n - 1, p),
            None => p,
        }
    }
}

pub open spec fn key_index_multi_upto(m: Seq<SpecRegion>, census: Seq<(usize, usize, String)>, classes: Seq<&str>, j: int) -> Map<u32, Seq<(String, usize, usize)>>
    decreases j,
{
    if j <= 0 {
        Map::empty()
    } else {
        let acc = key_index_multi_upto(m, census, classes, j - 1);
        let (_, obj, class) = census[j - 1];
        if class_listed(classes, class) {
            match table_of(m, obj as int) {
                Some((n, arr)) => keys_of_table(m, arr as int, class, n as int, acc),
                None => acc,
            }
        } else {
            acc
        }
    }
}

/// The hash map's contents, each list by its view.
pub open spec fn multi_view(r: Map<u32, Vec<(String, usize, usize)>>) -> Map<u32, Seq<(String, usize, usize)>> {
    r.map_values(|v: Vec<(String, usize, usize)>| v@)
}

fn add_hit_exec(out: &mut HashMap<u32, Vec<(String, usize, usize)>>, k: u32, hit: (String, usize, usize))
    ensures
        multi_view(final(out)@) == add_hit(multi_view(old(out)@), k, hit),
{
    let ghost before = multi_view(out@);
    let mut v = match out.remove(&k) {
        Some(v) => v,
        None => Vec::new(),
    };
    proof {
        if before.contains_key(k) {
            assert(v@ == before[k]);
        } else {
            assert(v@ =~= Seq::<(String, usize, usize)>::empty());
        }
    }
    v.push(hit);
    out.insert(k, v);
    proof {
        assert(multi_view(out@) =~= add_hit(before, k, hit));
    }
}

/// Every key-like word at `+0` and `+8` of every record of the census's
/// listed tables, with where it was found: (table class, index, record).
pub fn key_index_multi(mem: &Memory, census: &[(usize, usize, String)], classes: &[&str]) -> (r: HashMap<u32, Vec<(String, usize, usize)>>)
    ensures
        multi_view(r@) == key_index_multi_upto(mem@, census@, classes@, census@.len() as int),
{
    let mut out: HashMap<u32, Vec<(String, usize, usize)>> = HashMap::new();
    proof {
        assert(multi_view(out@) =~= Map::<u32, Seq<(String, usize, usize)>>::empty());
    }
    let mut j: usize = 0;
    while j < census.len()
        invariant
            0 <= j <= census@.len(),
            multi_view(out@) == key_index_multi_upto(mem@, census@, classes@, j as int),
        decreases census@.len() - j,
    {
        let class = &census[j].2;
        let obj = census[j].1;
        if class_listed_exec(classes, class) {
            if let Some((n, arr)) = table_of_exec(mem, obj) {
                let ghost acc = multi_view(out@);
                let mut i: u32 = 0;
                while i < n
                    invariant
                        0 < n <= MAX_RECORDS,
                        0 <= i <= n,
                        multi_view(out@) == keys_of_table(mem@, arr as int, *class, i as int, acc),
                    decreases n - i,
                {
                    if let Some(rec) = mem.ptr_at(arr, 8 * i as usize) {
                        if let Some(k) = mem.read_u32(rec) {
                            if k > 0xFFFF && k != 0xFFFF_FFFF {
                                add_hit_exec(&mut out, k, (class.clone(), i as usize, rec));
                            }
                        }
                        if let Some(k) = mem.u32_at(rec, 8) {
                            if k > 0xFFFF && k != 0xFFFF_FFFF {
                                add_hit_exec(&mut out, k, (class.clone(), i as usize, rec));
                            }
                        }
                    }
                    i = i + 1;
                }
            }
        }
        j = j + 1;
    }
    out
}

/// The name of the item record whose key is `key`, through the item table.
pub open spec fn item_name_by_key_spec(m: Seq<SpecRegion>, module: MainModule, slots: TableSlots, key: u32) -> Option<Seq<u8>> {
    match item_index_spec(m, module, slots, key) {
        Some(i) => match record_spec(m, module, slots.item, i as int) {
            Some(rec) => name_behind(m, rec as int, 0x08),
            None => None,
        },
        None => None,
    }
}

pub fn item_name_by_key(mem: &Memory, module: &MainModule, slots: &TableSlots, key: u32) -> (r: Option<String>)
    ensures
        r is Some <==> item_name_by_key_spec(mem@, *module, *slots, key) is Some,
        r matches Some(s) ==> encode_utf8(s@) == item_name_by_key_spec(mem@, *module, *slots, key)->0,
{
    match item_index_by_key(mem, module, slots, key) {
        Some(i) => match item_record(mem, module, slots, i) {
            Some(rec) => item_record_name(mem, rec),
            None => None,
        },
        None => None,
    }
}


/// A failed prefix fails the whole list.
proof fn lemma_drops_none(m: Seq<SpecRegion>, data: int, k: int, n: int, q: u64)
    requires
        0 <= k <= n,
        drops_upto(m, data, k, q) is None,
    ensures
        drops_upto(m, data, n, q) is None,
    decreases n - k,
{
    if k < n {
        lemma_drops_none(m, data, k, n - 1, q);
    }
}

/// Where a gimmick record keeps its output blocks: a vector of
/// `{ptr data @0, u32 size @8, u32 cap @0xC}`, elements of 16 bytes
/// `{Block* @0, u32 item @8}`; a block has `u64 min @0x20`, `u64 max @0x28`
/// and the item again at `@0x6C`.
pub const GIMMICK_DROPS_OFF: usize = 0x278;

/// The plausibility bounds on an output vector: most elements it may hold,
/// and the largest quantity a block may declare.
#[derive(Debug, Clone, Copy, PartialEq, Eq, Structural)]
pub struct DropLimits {
    pub max_count: u32,
    pub max_qty: u64,
}

/// Element `i` of the output vector at `data`, when it reads and agrees with
/// its block.
#[verifier::opaque]
pub open spec fn drop_at(m: Seq<SpecRegion>, data: int, i: int, max_qty: u64) -> Option<DropOutput> {
    let elem = data + 16 * i;
    match u32_at(m, elem + 8) {
        Some(item) if item != 0 => match ptr_at(m, elem) {
            Some(block) => match (u64_at(m, block + 0x20), u64_at(m, block + 0x28), u32_at(m, block + 0x6C)) {
                (Some(min), Some(max), Some(block_item)) => if block_item == item && min != 0 && min <= max
                    && max <= max_qty {
                    Some(DropOutput { item, min, max })
                } else {
                    None
                },
                _ => None,
            },
            None => None,
        },
        _ => None,
    }
}

/// The first `n` elements, or `None` when any of them fails.
pub open spec fn drops_upto(m: Seq<SpecRegion>, data: int, n: int, max_qty: u64) -> Option<Seq<DropOutput>>
    decreases n,
{
    if n <= 0 {
        Some(Seq::empty())
    } else {
        match (drops_upto(m, data, n - 1, max_qty), drop_at(m, data, n - 1, max_qty)) {
            (Some(s), Some(d)) => Some(s.push(d)),
            _ => None,
        }
    }
}

/// Every output block of the record at `rec`, in vector order; `None` for the
/// whole record on any layout surprise: no vector, an empty one, a size past
/// its capacity or the limit, elements that do not all read, or one element
/// that fails.
pub open spec fn gimmick_drops_spec(m: Seq<SpecRegion>, rec: int, limits: DropLimits) -> Option<Seq<DropOutput>> {
    let v = rec + GIMMICK_DROPS_OFF;
    match (ptr_at(m, v), u32_at(m, v + 8), u32_at(m, v + 0x0C)) {
        (Some(data), Some(size), Some(cap)) => if size == 0 || size > cap || size > limits.max_count
            || !readable(m, data as int, 16 * size) {
            None
        } else {
            drops_upto(m, data as int, size as int, limits.max_qty)
        },
        _ => None,
    }
}

/// Element `i` of the output vector at `data`.
fn drop_elem(mem: &Memory, data: usize, i: usize, max_qty: u64) -> (r: Option<DropOutput>)
    requires
        data + 16 * i + 16 <= usize::MAX + 1,
    ensures
        r == drop_at(mem@, data as int, i as int, max_qty),
{
    reveal(drop_at);
    let elem = data + 16 * i;
    let item = match mem.u32_at(elem, 8) {
        Some(x) => x,
        None => return None,
    };
    if item == 0 {
        return None;
    }
    let block = match mem.read_ptr(elem) {
        Some(b) => b,
        None => return None,
    };
    let min = match mem.u64_at(block, 0x20) {
        Some(x) => x,
        None => return None,
    };
    let max = match mem.u64_at(block, 0x28) {
        Some(x) => x,
        None => return None,
    };
    let block_item = match mem.u32_at(block, 0x6C) {
        Some(x) => x,
        None => return None,
    };
    if block_item != item || min == 0 || min > max || max > max_qty {
        return None;
    }
    Some(DropOutput { item, min, max })
}

/// Every output block of a constructed gimmick record, in vector order, or
/// `None` for the whole record rather than a half-right list.
pub fn gimmick_record_drops(mem: &Memory, rec: usize, limits: DropLimits) -> (r: Option<Vec<DropOutput>>)
    ensures
        match gimmick_drops_spec(mem@, rec as int, limits) {
            Some(s) => r matches Some(v) && v@ == s,
            None => r is None,
        },
{
    let v = match offset(rec, GIMMICK_DROPS_OFF) {
        Some(v) => v,
        None => {
            proof {
                assert(byte_at(mem@, rec + GIMMICK_DROPS_OFF + 0) is None);
            }
            return None;
        },
    };
    let data = match mem.read_ptr(v) {
        Some(d) => d,
        None => return None,
    };
    let size = match mem.u32_at(v, 0x08) {
        Some(s) => s,
        None => return None,
    };
    let cap = match mem.u32_at(v, 0x0C) {
        Some(c) => c,
        None => return None,
    };
    if size == 0 || size > cap || size > limits.max_count {
        return None;
    }
    let n = size as usize;
    if n > usize::MAX / 16 {
        proof {
            assert(16 * n > usize::MAX) by (nonlinear_arith)
                requires
                    n > usize::MAX / 16,
            ;
            let k = 16 * n - 1;
            assert(byte_at(mem@, data + k) is None);
        }
        return None;
    }
    proof {
        assert(16 * n <= usize::MAX) by (nonlinear_arith)
            requires
                n <= usize::MAX / 16,
        ;
    }
    if !mem.readable(data, n * 16) {
        return None;
    }
    proof {
        let k = 16 * n - 1;
        assert(byte_at(mem@, data + k) is Some);
    }
    let mut out: Vec<DropOutput> = Vec::new();
    let mut i: usize = 0;
    while i < n
        invariant
            0 <= i <= n,
            n == size,
            data + 16 * n <= usize::MAX + 1,
            gimmick_drops_spec(mem@, rec as int, limits) == drops_upto(mem@, data as int, n as int, limits.max_qty),
            drops_upto(mem@, data as int, i as int, limits.max_qty) == Some(out@),
        decreases n - i,
    {
        proof {
            assert(16 * i + 16 <= 16 * n);
        }
        let d = match drop_elem(mem, data, i, limits.max_qty) {
            Some(d) => d,
            None => {
                proof {
                    assert(drops_upto(mem@, data as int, i + 1, limits.max_qty) is None);
                    lemma_drops_none(mem@, data as int, i + 1, n as int, limits.max_qty);
                }
                return None;
            },
        };
        proof {
            assert(drops_upto(mem@, data as int, i + 1, limits.max_qty) == Some(out@.push(d)));
        }
        out.push(d);
        i = i + 1;
    }
    Some(out)
}

} // verus!

verus! {

// ---------------------------------------------------------------------------
// Probing every table for one id
// ---------------------------------------------------------------------------

/// Where an id turned up in a record table: the table's class, its global,
/// its count; either as an index (`key_off` is `None`) or as the key at
/// `+0` or `+8` of record `index`; and the record's name.
pub struct ProbeHit {
    pub class: String,
    pub rva: usize,
    pub count: u32,
    pub key_off: Option<usize>,
    pub index: usize,
    pub name: Option<String>,
}

pub type ProbeView = (String, usize, u32, Option<usize>, usize, Option<Seq<u8>>);

pub open spec fn probe_v(h: ProbeHit) -> ProbeView {
    (h.class, h.rva, h.count, h.key_off, h.index, match h.name {
        Some(s) => Some(encode_utf8(s@)),
        None => None,
    })
}

pub open spec fn probes_view(v: Seq<ProbeHit>) -> Seq<ProbeView> {
    v.map_values(|h: ProbeHit| probe_v(h))
}

/// The key hits at `+0` and `+8` of the record at `rec`, index `i`.
pub open spec fn key_offs_hit(m: Seq<SpecRegion>, class: String, rva: usize, count: u32, rec: int, i: int, id: u32) -> Seq<ProbeView> {
    let name = record_name_any_spec(m, rec);
    let at0 = if u32_at(m, rec) == Some(id) { seq![(class, rva, count, Some(0usize), i as usize, name)] } else { seq![] };
    let at8 = if u32_at(m, rec + 8) == Some(id) { seq![(class, rva, count, Some(8usize), i as usize, name)] } else { seq![] };
    at0 + at8
}

/// The key hits of records `i..count` of the array at `arr`, with `hits`
/// found before them; the scan stops once three or more were found.
pub open spec fn key_scan(m: Seq<SpecRegion>, class: String, rva: usize, count: u32, arr: int, id: u32, i: int, hits: int) -> Seq<ProbeView>
    decreases count - i,
{
    if i < 0 || i >= count || hits >= 3 {
        seq![]
    } else {
        match ptr_at(m, arr + 8 * i) {
            None => key_scan(m, class, rva, count, arr, id, i + 1, hits),
            Some(rec) => {
                let found = key_offs_hit(m, class, rva, count, rec as int, i, id);
                found + key_scan(m, class, rva, count, arr, id, i + 1, hits + found.len())
            },
        }
    }
}

/// Record `id` of a table by index, when it has a name.
pub open spec fn index_hit(m: Seq<SpecRegion>, class: String, rva: usize, count: u32, arr: int, id: u32) -> Seq<ProbeView> {
    if id < count {
        match ptr_at(m, arr + 8 * id) {
            Some(rec) => match record_name_any_spec(m, rec as int) {
                Some(n) => seq![(class, rva, count, None::<usize>, id as usize, Some(n))],
                None => seq![],
            },
            None => seq![],
        }
    } else {
        seq![]
    }
}

/// One census entry probed: only a table whose class ends in `InfoManager`
/// and that reads (`table_of`); record `id` by index first, then the records
/// with `id` as a key.
pub open spec fn probe_table_spec(m: Seq<SpecRegion>, rva: usize, obj: usize, class: String, id: u32) -> Seq<ProbeView> {
    if !crate::text::has_suffix(encode_utf8(class@), lit("InfoManager")) {
        seq![]
    } else {
        match table_of(m, obj as int) {
            None => seq![],
            Some((count, arr)) => index_hit(m, class, rva, count, arr as int, id)
                + key_scan(m, class, rva, count, arr as int, id, 0, 0),
        }
    }
}

/// The probes of the first `k` census entries, in census order.
pub open spec fn probe_all_spec(m: Seq<SpecRegion>, census: Seq<(usize, usize, String)>, id: u32, k: int) -> Seq<ProbeView>
    decreases k,
{
    if k <= 0 {
        seq![]
    } else {
        probe_all_spec(m, census, id, k - 1) + probe_table_spec(m, census[k - 1].0, census[k - 1].1, census[k - 1].2, id)
    }
}

fn push_probe(out: &mut Vec<ProbeHit>, h: ProbeHit)
    ensures
        probes_view(final(out)@) == probes_view(old(out)@).push(probe_v(h)),
{
    let ghost before = out@;
    out.push(h);
    proof {
        assert(probes_view(out@) =~= probes_view(before).push(probe_v(h)));
    }
}

fn key_hits_of(mem: &Memory, class: &String, rva: usize, count: u32, rec: usize, i: usize, id: u32, out: &mut Vec<ProbeHit>) -> (n: usize)
    ensures
        probes_view(final(out)@) == probes_view(old(out)@) + key_offs_hit(mem@, *class, rva, count, rec as int, i as int, id),
        n == key_offs_hit(mem@, *class, rva, count, rec as int, i as int, id).len(),
{
    let ghost start = probes_view(out@);
    let mut n: usize = 0;
    let at0 = mem.read_u32(rec);
    let at8 = mem.u32_at(rec, 8);
    if at0 == Some(id) {
        push_probe(out, ProbeHit { class: class.clone(), rva, count, key_off: Some(0), index: i, name: record_name_any(mem, rec) });
        n = n + 1;
    }
    if at8 == Some(id) {
        push_probe(out, ProbeHit { class: class.clone(), rva, count, key_off: Some(8), index: i, name: record_name_any(mem, rec) });
        n = n + 1;
    }
    proof {
        assert(probes_view(out@) =~= start + key_offs_hit(mem@, *class, rva, count, rec as int, i as int, id));
    }
    n
}

#[verifier::spinoff_prover]
#[verifier::rlimit(40)]
fn scan_keys(mem: &Memory, class: &String, rva: usize, count: u32, arr: usize, id: u32, out: &mut Vec<ProbeHit>)
    requires
        0 < count <= MAX_RECORDS,
    ensures
        probes_view(final(out)@) == probes_view(old(out)@) + key_scan(mem@, *class, rva, count, arr as int, id, 0, 0),
{
    let ghost start = probes_view(out@);
    let mut hits: usize = 0;
    let mut i: usize = 0;
    while i < count as usize && hits < 3
        invariant
            0 <= i <= count,
            0 < count <= MAX_RECORDS,
            hits <= 4,
            probes_view(out@) + key_scan(mem@, *class, rva, count, arr as int, id, i as int, hits as int)
                == start + key_scan(mem@, *class, rva, count, arr as int, id, 0, 0),
        decreases count - i,
    {
        let ghost before = probes_view(out@);
        match mem.ptr_at(arr, 8 * i) {
            Some(rec) => {
                let found = key_hits_of(mem, class, rva, count, rec, i, id, out);
                proof {
                    assert(before + key_scan(mem@, *class, rva, count, arr as int, id, i as int, hits as int)
                        =~= probes_view(out@) + key_scan(mem@, *class, rva, count, arr as int, id, i + 1, hits + found));
                }
                hits = hits + found;
            },
            None => {},
        }
        i = i + 1;
    }
    proof {
        assert(probes_view(out@) + Seq::<ProbeView>::empty() =~= probes_view(out@));
    }
}

#[verifier::spinoff_prover]
fn probe_table(mem: &Memory, rva: usize, obj: usize, class: &String, id: u32, out: &mut Vec<ProbeHit>)
    ensures
        probes_view(final(out)@) == probes_view(old(out)@) + probe_table_spec(mem@, rva, obj, *class, id),
{
    let ghost start = probes_view(out@);
    proof {
        assert(start + Seq::<ProbeView>::empty() =~= start);
    }
    if !crate::text::ends_with(class.as_str().as_bytes(), "InfoManager".as_bytes()) {
        return;
    }
    let (count, arr) = match table_of_exec(mem, obj) {
        Some(t) => t,
        None => return,
    };
    if id < count {
        if let Some(rec) = mem.ptr_at(arr, 8 * id as usize) {
            if let Some(n) = record_name_any(mem, rec) {
                push_probe(out, ProbeHit { class: class.clone(), rva, count, key_off: None, index: id as usize, name: Some(n) });
            }
        }
    }
    let ghost mid = probes_view(out@);
    proof {
        assert(mid =~= start + index_hit(mem@, *class, rva, count, arr as int, id));
    }
    scan_keys(mem, class, rva, count, arr, id, out);
    proof {
        assert(mid + key_scan(mem@, *class, rva, count, arr as int, id, 0, 0)
            =~= start + probe_table_spec(mem@, rva, obj, *class, id));
    }
}

/// Tries every `InfoManager` the census lists for `id`: by index (when the
/// record there has a name) and as the key at `+0` or `+8` of a record, at
/// most the records up to the third key hit of each table.
pub fn probe_all_tables(mem: &Memory, census: &[(usize, usize, String)], id: u32) -> (r: Vec<ProbeHit>)
    ensures
        probes_view(r@) == probe_all_spec(mem@, census@, id, census@.len() as int),
{
    let mut out: Vec<ProbeHit> = Vec::new();
    let mut k: usize = 0;
    while k < census.len()
        invariant
            0 <= k <= census@.len(),
            probes_view(out@) == probe_all_spec(mem@, census@, id, k as int),
        decreases census@.len() - k,
    {
        probe_table(mem, census[k].0, census[k].1, &census[k].2, id, &mut out);
        k = k + 1;
    }
    proof {
        assert(census@.subrange(0, census@.len() as int) =~= census@);
    }
    out
}

} // verus!
