//! The developer dumps: raw looks at game memory that pin down where a
//! layout keeps what. Each one reads and returns what it found; the caller
//! writes it to the log.

use vstd::prelude::*;
use vstd::string::StringSliceAdditionalSpecFns;
use vstd::utf8::encode_utf8;

use crate::strings::lit;
use crate::text::{contains_sub, has_sub};

use crate::looter::actors::{
    actor_eid, eid_map, eid_map_of, entries_upto, comp_off, comp_off_spec, component_label, component_label_spec, component_names, component_names_spec,
    comps_view, census_upto, eid_of, fields_upto, fields_view, gimmick_comp, global_object_census, in_module, object_fields,
    rtti_name, rtti_name_spec, short_name, short_name_spec, steps, tab_slots, tab_slots_spec, word_text, DataSection,
    InventorySlot, InventoryTab, CONTAINER_OFF, CONTAINER_SCAN, MANAGER_SIZE,
};
use crate::looter::game::{find_manager_current, World};
use crate::looter::tables::{
    gimmick_name_candidates, item_record, item_record_name, manager_at, manager_spec, name, name_behind,
    name_candidates_spec, name_spec, record_name_any, record_name_any_spec, record_spec, strings_view, TableSlots,
};
use std::collections::HashMap;
use crate::looter::memory::{byte_at, cstr_at, lemma_cstr_ascii, readable, ptr_at, u32_at, u64_at, MainModule, Memory, SpecRegion};
use crate::strings::{
    all_ascii, ascii_string, hex_pad, hex_upper, lemma_ascii_encode, lemma_hex_pad_ascii, lemma_hex_upper_ascii, push_hex_upper,
};

verus! {

broadcast use vstd::std_specs::hash::group_hash_axioms;

/// Words `0..k` at `p` in upper-case hex, space-separated, `?` for a word
/// that does not read.
pub open spec fn qwords_upto(m: Seq<SpecRegion>, p: int, k: int) -> Seq<u8>
    decreases k,
{
    if k <= 0 {
        seq![]
    } else if k == 1 {
        word_text(u64_at(m, p))
    } else {
        qwords_upto(m, p, k - 1) + seq![0x20u8] + word_text(u64_at(m, p + 8 * (k - 1)))
    }
}

proof fn lemma_word_ascii(w: Option<u64>)
    ensures
        all_ascii(word_text(w)),
{
    match w {
        Some(v) => lemma_hex_upper_ascii(v as nat),
        None => {},
    }
}

proof fn lemma_qwords_ascii(m: Seq<SpecRegion>, p: int, k: int)
    ensures
        all_ascii(qwords_upto(m, p, k)),
    decreases k,
{
    if k > 1 {
        lemma_qwords_ascii(m, p, k - 1);
    }
    if k >= 1 {
        lemma_word_ascii(u64_at(m, p + 8 * (k - 1)));
        lemma_word_ascii(u64_at(m, p));
    }
}

/// The first `n` qwords at `addr`, as the dumps print them.
pub fn qwords(mem: &Memory, addr: usize, n: usize) -> (r: String)
    ensures
        encode_utf8(r@) == qwords_upto(mem@, addr as int, n as int),
{
    if n > usize::MAX / 8 {
        return qwords_far(mem, addr, n);
    }
    qwords_at(mem, addr, 0, n)
}

/// Past what a `usize` counts in bytes: every word from the first one that
/// does not read is `?`, as it would be anyway.
fn qwords_far(mem: &Memory, addr: usize, n: usize) -> (r: String)
    requires
        n > usize::MAX / 8,
    ensures
        encode_utf8(r@) == qwords_upto(mem@, addr as int, n as int),
{
    let mut out: Vec<u8> = Vec::new();
    let mut i: usize = 0;
    while i < n
        invariant
            0 <= i <= n,
            out@ == qwords_upto(mem@, addr as int, i as int),
        decreases n - i,
    {
        if i > 0 {
            out.push(0x20);
        }
        match mem.word(addr, i) {
            Some(v) => push_hex_upper(&mut out, v),
            None => out.push(0x3F),
        }
        proof {
            if i == 0 {
                assert(out@ =~= word_text(u64_at(mem@, addr as int)));
            } else {
                assert(out@ =~= qwords_upto(mem@, addr as int, i as int) + seq![0x20u8] + word_text(
                    u64_at(mem@, addr + 8 * i),
                ));
            }
        }
        i = i + 1;
    }
    proof {
        lemma_qwords_ascii(mem@, addr as int, n as int);
        lemma_ascii_encode(out@);
    }
    ascii_string(out)
}

/// The first `n` qwords at `base + off`.
fn qwords_at(mem: &Memory, base: usize, off: usize, n: usize) -> (r: String)
    requires
        off + 8 * n <= usize::MAX,
    ensures
        encode_utf8(r@) == qwords_upto(mem@, base + off, n as int),
{
    let ghost addr = base + off;
    let mut out: Vec<u8> = Vec::new();
    let mut i: usize = 0;
    while i < n
        invariant
            0 <= i <= n,
            off + 8 * n <= usize::MAX,
            addr == base + off,
            out@ == qwords_upto(mem@, addr, i as int),
        decreases n - i,
    {
        if i > 0 {
            out.push(0x20);
        }
        assert(off + 8 * i <= usize::MAX);
        match mem.u64_at(base, off + 8 * i) {
            Some(v) => push_hex_upper(&mut out, v),
            None => out.push(0x3F),
        }
        proof {
            assert(base + (off + 8 * i) == addr + 8 * i);
            if i == 0 {
                assert(out@ =~= word_text(u64_at(mem@, addr)));
            } else {
                assert(out@ =~= qwords_upto(mem@, addr, i as int) + seq![0x20u8] + word_text(u64_at(mem@, addr + 8 * i)));
            }
        }
        i = i + 1;
    }
    proof {
        lemma_qwords_ascii(mem@, addr, n as int);
        lemma_ascii_encode(out@);
    }
    ascii_string(out)
}

/// A byte as the hex column shows it: two digits and a space, `?? ` when it
/// does not read.
pub open spec fn hex_cell(b: Option<u8>) -> Seq<u8> {
    match b {
        Some(x) => hex_pad(x as nat, 2) + seq![0x20u8],
        None => seq![0x3Fu8, 0x3F, 0x20],
    }
}

/// A byte as the text column shows it: itself when printable, `.` when not,
/// `?` when it does not read.
pub open spec fn text_cell(b: Option<u8>) -> u8 {
    match b {
        Some(x) => if 0x20 <= x < 0x7F { x } else { 0x2E },
        None => 0x3F,
    }
}

pub open spec fn hex_cells(m: Seq<SpecRegion>, a: int, k: int) -> Seq<u8>
    decreases k,
{
    if k <= 0 {
        seq![]
    } else {
        hex_cells(m, a, k - 1) + hex_cell(byte_at(m, a + (k - 1)))
    }
}

pub open spec fn text_cells(m: Seq<SpecRegion>, a: int, k: int) -> Seq<u8>
    decreases k,
{
    if k <= 0 {
        seq![]
    } else {
        text_cells(m, a, k - 1).push(text_cell(byte_at(m, a + (k - 1))))
    }
}

/// `n` bytes at `a` as `hex|text|`.
pub open spec fn hexascii_spec(m: Seq<SpecRegion>, a: int, n: int) -> Seq<u8> {
    hex_cells(m, a, n) + seq![0x7Cu8] + text_cells(m, a, n) + seq![0x7Cu8]
}

proof fn lemma_cells_ascii(m: Seq<SpecRegion>, a: int, k: int)
    ensures
        all_ascii(hex_cells(m, a, k)),
        all_ascii(text_cells(m, a, k)),
    decreases k,
{
    if k > 0 {
        lemma_cells_ascii(m, a, k - 1);
        match byte_at(m, a + (k - 1)) {
            Some(x) => lemma_hex_pad_ascii(x as nat, 2),
            None => {},
        }
        let h = hex_cells(m, a, k);
        let h0 = hex_cells(m, a, k - 1);
        let c = hex_cell(byte_at(m, a + (k - 1)));
        assert forall|i: int| 0 <= i < h.len() implies #[trigger] h[i] < 128 by {
            if i < h0.len() {
                assert(h[i] == h0[i]);
            } else {
                assert(h[i] == c[i - h0.len()]);
            }
        }
        let t = text_cells(m, a, k);
        let t0 = text_cells(m, a, k - 1);
        assert forall|i: int| 0 <= i < t.len() implies #[trigger] t[i] < 128 by {
            if i < t0.len() {
                assert(t[i] == t0[i]);
            }
        }
    }
}

/// `n` bytes at `addr` as the record dumps print them: the hex column, then
/// the text column, each closed by `|`.
pub fn hexascii(mem: &Memory, addr: usize, n: usize) -> (r: String)
    ensures
        encode_utf8(r@) == hexascii_spec(mem@, addr as int, n as int),
{
    hexascii_at(mem, addr, 0, n)
}

/// The same for the `n` bytes at `base + off`.
fn hexascii_at(mem: &Memory, base: usize, off: usize, n: usize) -> (r: String)
    requires
        off + n <= usize::MAX,
    ensures
        encode_utf8(r@) == hexascii_spec(mem@, base + off, n as int),
{
    let ghost addr = base + off;
    let mut hex: Vec<u8> = Vec::new();
    let mut asc: Vec<u8> = Vec::new();
    let mut i: usize = 0;
    while i < n
        invariant
            0 <= i <= n,
            off + n <= usize::MAX,
            addr == base + off,
            hex@ == hex_cells(mem@, addr, i as int),
            asc@ == text_cells(mem@, addr, i as int),
        decreases n - i,
    {
        let k = off + i;
        let b = if base > usize::MAX - k {
            proof {
                assert(byte_at(mem@, addr + i) is None);
            }
            None
        } else {
            proof {
                assert(base + k == addr + i);
            }
            mem.read_u8(base + k)
        };
        let ghost h0 = hex@;
        match b {
            Some(x) => {
                let mut cell: Vec<u8> = Vec::new();
                push_hex_upper(&mut cell, x as u64);
                if cell.len() < 2 {
                    hex.push(0x30);
                }
                crate::text::push_all(&mut hex, cell.as_slice());
                hex.push(0x20);
                asc.push(if 0x20 <= x && x < 0x7F { x } else { 0x2E });
                proof {
                    let hu = hex_upper(x as nat);
                    assert(cell@ =~= hu);
                    if hu.len() < 2 {
                        assert(Seq::new((2 - hu.len()) as nat, |j: int| 0x30u8) =~= seq![0x30u8]);
                    }
                    assert(hex@ =~= h0 + hex_cell(Some(x)));
                }
            },
            None => {
                hex.push(0x3F);
                hex.push(0x3F);
                hex.push(0x20);
                asc.push(0x3F);
                proof {
                    assert(hex@ =~= h0 + hex_cell(None));
                }
            },
        }
        i = i + 1;
    }
    let mut out = hex;
    out.push(0x7C);
    crate::text::push_all(&mut out, asc.as_slice());
    out.push(0x7C);
    proof {
        assert(out@ =~= hexascii_spec(mem@, addr, n as int));
        lemma_cells_ascii(mem@, addr, n as int);
        let s = hexascii_spec(mem@, addr, n as int);
        let h = hex_cells(mem@, addr, n as int);
        let t = text_cells(mem@, addr, n as int);
        assert forall|j: int| 0 <= j < s.len() implies #[trigger] s[j] < 128 by {
            if j < h.len() {
                assert(s[j] == h[j]);
            } else if j == h.len() {
            } else if j < h.len() + 1 + t.len() {
                assert(s[j] == t[j - h.len() - 1]);
            }
        }
        lemma_ascii_encode(out@);
    }
    ascii_string(out)
}

/// The four 32-byte lines of record `idx` of the table behind `slot_rva`.
pub open spec fn record_bytes_dump_spec(m: Seq<SpecRegion>, md: MainModule, slot_rva: int, idx: int) -> Option<Seq<Seq<u8>>> {
    match manager_spec(m, md, slot_rva) {
        None => None,
        Some(mgr) => match ptr_at(m, mgr + 0x58) {
            None => None,
            Some(arr) => match ptr_at(m, arr + 8 * idx) {
                None => None,
                Some(rec) => Some(hex_lines_spec(m, rec as int, 4)),
            },
        },
    }
}

pub open spec fn texts_view(v: Seq<String>) -> Seq<Seq<u8>> {
    v.map_values(|s: String| encode_utf8(s@))
}

/// `n` lines of 32 bytes from `rec` on, as `hexascii` prints them.
pub open spec fn hex_lines_spec(m: Seq<SpecRegion>, rec: int, n: int) -> Seq<Seq<u8>> {
    Seq::new(n as nat, |l: int| hexascii_spec(m, rec + 32 * l, 32))
}

fn hex_lines(mem: &Memory, rec: usize, n: usize) -> (r: Vec<String>)
    requires
        n <= 64,
    ensures
        texts_view(r@) == hex_lines_spec(mem@, rec as int, n as int),
{
    let mut lines: Vec<String> = Vec::new();
    let mut line: usize = 0;
    while line < n
        invariant
            0 <= line <= n <= 64,
            lines@.len() == line,
            texts_view(lines@) == hex_lines_spec(mem@, rec as int, line as int),
        decreases n - line,
    {
        let t = hexascii_at(mem, rec, 32 * line, 32);
        proof {
            let want = hex_lines_spec(mem@, rec as int, line + 1);
            let got = texts_view(lines@.push(t));
            assert forall|j: int| 0 <= j < line + 1 implies #[trigger] got[j] == want[j] by {
                if j < line {
                    assert(lines@.push(t)[j] == lines@[j]);
                    assert(got[j] == texts_view(lines@)[j]);
                } else {
                    assert(lines@.push(t)[j] == t);
                }
            }
            assert(got =~= want);
        }
        lines.push(t);
        line = line + 1;
    }
    lines
}

/// The first 128 bytes of record `idx` of the table behind `slot_rva`, as
/// four lines of 32.
pub fn dump_record_bytes(mem: &Memory, md: &MainModule, slot_rva: usize, idx: usize) -> (r: Option<Vec<String>>)
    ensures
        match record_bytes_dump_spec(mem@, *md, slot_rva as int, idx as int) {
            Some(lines) => r matches Some(v) && texts_view(v@) == lines,
            None => r is None,
        },
{
    let mgr = match manager_at(mem, md, slot_rva) {
        Some(p) => p,
        None => return None,
    };
    let arr = match mem.ptr_at(mgr, 0x58) {
        Some(p) => p,
        None => return None,
    };
    let rec = match mem.word(arr, idx) {
        Some(w) => if w != 0 && w <= usize::MAX as u64 { w as usize } else { return None },
        None => return None,
    };
    Some(hex_lines(mem, rec, 4))
}

/// One pointer field of an object that leads to a classed object.
pub struct FieldLink {
    pub off: usize,
    pub ptr: usize,
    pub class: String,
    pub eid: Option<u32>,
}

pub open spec fn link_view(l: FieldLink) -> (usize, usize, Seq<u8>, Option<u32>) {
    (l.off, l.ptr, encode_utf8(l.class@), l.eid)
}

/// The pointer fields `0, 8, .. 8 * (k - 1)` of `obj` whose target has a
/// class: the offset, the target, its short class name and the entity id
/// the target carries.
pub open spec fn class_links_upto(m: Seq<SpecRegion>, md: MainModule, obj: int, k: int) -> Seq<(usize, usize, Seq<u8>, Option<u32>)>
    decreases k,
{
    if k <= 0 {
        seq![]
    } else {
        let rest = class_links_upto(m, md, obj, k - 1);
        let off = 8 * (k - 1);
        match ptr_at(m, obj + off) {
            Some(p) => match rtti_name_spec(m, md, p as int) {
                Some(n) => rest.push((off as usize, p, short_name_spec(n), eid_of(m, p as int))),
                None => rest,
            },
            None => rest,
        }
    }
}

/// The object behind an eid-map value: its first twelve qwords, and the
/// fields of its first `0x80` bytes that point at classed objects.
pub fn dump_value_object(mem: &Memory, md: &MainModule, obj: usize) -> (r: (String, Vec<FieldLink>))
    ensures
        encode_utf8(r.0@) == qwords_upto(mem@, obj as int, 12),
        r.1@.map_values(|l: FieldLink| link_view(l)) == class_links_upto(mem@, *md, obj as int, 16),
{
    let words = qwords(mem, obj, 12);
    let mut links: Vec<FieldLink> = Vec::new();
    let mut k: usize = 0;
    while k < 16
        invariant
            0 <= k <= 16,
            links@.map_values(|l: FieldLink| link_view(l)) == class_links_upto(mem@, *md, obj as int, k as int),
        decreases 16 - k,
    {
        let off = 8 * k;
        match mem.ptr_at(obj, off) {
            Some(p) => match rtti_name(mem, md, p) {
                Some(n) => {
                    let ns = n.as_str();
                    let l = FieldLink { off, ptr: p, class: short_name(ns), eid: actor_eid(mem, p) };
                    proof {
                        assert(lit(ns) == encode_utf8(n@));
                        assert(links@.push(l).map_values(|l: FieldLink| link_view(l))
                            =~= links@.map_values(|l: FieldLink| link_view(l)).push(link_view(l)));
                    }
                    links.push(l);
                },
                None => {},
            },
            None => {},
        }
        k = k + 1;
    }
    (words, links)
}

/// One record of a table dump: its index, where it is, its name, and its
/// first ten qwords.
pub struct TableRow {
    pub index: usize,
    pub rec: usize,
    pub name: Option<String>,
    pub words: String,
}

pub open spec fn opt_text(o: Option<String>) -> Option<Seq<u8>> {
    match o {
        Some(s) => Some(encode_utf8(s@)),
        None => None,
    }
}

pub open spec fn row_view(r: TableRow) -> (usize, usize, Option<Seq<u8>>, Seq<u8>) {
    (r.index, r.rec, opt_text(r.name), encode_utf8(r.words@))
}

/// The rows of records `0..k` that are there.
pub open spec fn table_rows_upto(m: Seq<SpecRegion>, md: MainModule, slot_rva: int, arr: int, k: int) -> Seq<(usize, usize, Option<Seq<u8>>, Seq<u8>)>
    decreases k,
{
    if k <= 0 {
        seq![]
    } else {
        let rest = table_rows_upto(m, md, slot_rva, arr, k - 1);
        match ptr_at(m, arr + 8 * (k - 1)) {
            Some(rec) => rest.push(((k - 1) as usize, rec, name_spec(m, md, slot_rva, (k - 1) as u32), qwords_upto(m, rec as int, 10))),
            None => rest,
        }
    }
}

/// A look at the first records of a table.
pub struct TableDump {
    pub manager: usize,
    /// The record count, 0 when it does not read.
    pub count: u32,
    pub records: usize,
    /// The manager's first fourteen qwords.
    pub words: String,
    pub rows: Vec<TableRow>,
}

/// The manager of the table behind `slot_rva` and its first `n` records.
#[verifier::spinoff_prover]
#[verifier::rlimit(40)]
pub fn dump_table_records(mem: &Memory, md: &MainModule, slot_rva: usize, n: usize) -> (r: Option<TableDump>)
    ensures
        match manager_spec(mem@, *md, slot_rva as int) {
            None => r is None,
            Some(mgr) => match ptr_at(mem@, mgr + 0x58) {
                None => r is None,
                Some(arr) => r matches Some(d) && d.manager == mgr && d.records == arr
                    && d.count == (match u32_at(mem@, mgr + 8) { Some(c) => c, None => 0 })
                    && encode_utf8(d.words@) == qwords_upto(mem@, mgr as int, 14)
                    && d.rows@.map_values(|x: TableRow| row_view(x)) == table_rows_upto(mem@, *md, slot_rva as int, arr as int, n as int),
            },
        },
{
    let mgr = match manager_at(mem, md, slot_rva) {
        Some(p) => p,
        None => return None,
    };
    let count = match mem.u32_at(mgr, 8) {
        Some(c) => c,
        None => 0,
    };
    let arr = match mem.ptr_at(mgr, 0x58) {
        Some(p) => p,
        None => return None,
    };
    let words = qwords(mem, mgr, 14);
    let mut rows: Vec<TableRow> = Vec::new();
    let mut i: usize = 0;
    while i < n
        invariant
            0 <= i <= n,
            rows@.map_values(|x: TableRow| row_view(x)) == table_rows_upto(mem@, *md, slot_rva as int, arr as int, i as int),
        decreases n - i,
    {
        let rec = match mem.word(arr, i) {
            Some(w) => if w != 0 && w <= usize::MAX as u64 { Some(w as usize) } else { None },
            None => None,
        };
        match rec {
            Some(rec) => {
                let row = TableRow { index: i, rec, name: name(mem, md, slot_rva, i as u32), words: qwords(mem, rec, 10) };
                proof {
                    assert(rows@.push(row).map_values(|x: TableRow| row_view(x))
                        =~= rows@.map_values(|x: TableRow| row_view(x)).push(row_view(row)));
                }
                rows.push(row);
            },
            None => {},
        }
        i = i + 1;
    }
    Some(TableDump { manager: mgr, count, records: arr, words, rows })
}

// ---------------------------------------------------------------------------
// A gimmick node's component and what hangs off it
// ---------------------------------------------------------------------------

/// The node's gimmick component: the first component whose class names it.
pub open spec fn gimmick_comp_spec(m: Seq<SpecRegion>, md: MainModule, actor: int) -> Option<usize> {
    match comp_off_spec(component_names_spec(m, md, actor), gimmick_comp()) {
        None => None,
        Some(off) => match ptr_at(m, actor + 0x68) {
            None => None,
            Some(sub) => ptr_at(m, sub + off),
        },
    }
}

fn gimmick_component(mem: &Memory, md: &MainModule, actor: usize) -> (r: Option<usize>)
    ensures
        r == gimmick_comp_spec(mem@, *md, actor as int),
{
    let comps = component_names(mem, md, actor);
    let off = match comp_off(comps.as_slice(), "ClientGimmickActorComponent".as_bytes()) {
        Some(o) => o,
        None => return None,
    };
    let sub = match mem.ptr_at(actor, 0x68) {
        Some(p) => p,
        None => return None,
    };
    mem.ptr_at(sub, off)
}

/// The short class name of the object at `p`, or nothing.
pub open spec fn class_text(m: Seq<SpecRegion>, md: MainModule, p: int) -> Seq<u8> {
    match rtti_name_spec(m, md, p) {
        Some(n) => short_name_spec(n),
        None => seq![],
    }
}

pub open spec fn opt_class(m: Seq<SpecRegion>, md: MainModule, p: int) -> Option<Seq<u8>> {
    match rtti_name_spec(m, md, p) {
        Some(n) => Some(short_name_spec(n)),
        None => None,
    }
}

fn class_name(mem: &Memory, md: &MainModule, p: usize) -> (r: Option<String>)
    ensures
        opt_text(r) == opt_class(mem@, *md, p as int),
{
    match rtti_name(mem, md, p) {
        Some(n) => {
            let ns = n.as_str();
            proof {
                assert(lit(ns) == encode_utf8(n@));
            }
            Some(short_name(ns))
        },
        None => None,
    }
}

/// A side object of a gimmick component: where it hangs, where it is, its
/// first six qwords and its class.
pub struct SideObject {
    pub off: usize,
    pub ptr: usize,
    pub words: String,
    pub class: String,
}

pub open spec fn side_view(x: SideObject) -> (usize, usize, Seq<u8>, Seq<u8>) {
    (x.off, x.ptr, encode_utf8(x.words@), encode_utf8(x.class@))
}

pub open spec fn side_spec(m: Seq<SpecRegion>, md: MainModule, comp: int, o: usize) -> Option<(usize, usize, Seq<u8>, Seq<u8>)> {
    match ptr_at(m, comp + o) {
        Some(p) => Some((o, p, qwords_upto(m, p as int, 6), class_text(m, md, p as int))),
        None => None,
    }
}

pub open spec fn somes<T>(v: Seq<Option<T>>) -> Seq<T>
    decreases v.len(),
{
    if v.len() == 0 {
        seq![]
    } else {
        match v.last() {
            Some(x) => somes(v.drop_last()).push(x),
            None => somes(v.drop_last()),
        }
    }
}

proof fn lemma_somes_two<T>(a: Option<T>, b: Option<T>)
    ensures
        somes(seq![a, b]) == match (a, b) {
            (Some(x), Some(y)) => seq![x, y],
            (Some(x), None) => seq![x],
            (None, Some(y)) => seq![y],
            (None, None) => Seq::<T>::empty(),
        },
{
    let v = seq![a, b];
    let w = v.drop_last();
    assert(w =~= seq![a]);
    assert(w.drop_last() =~= Seq::<Option<T>>::empty());
    assert(somes(w.drop_last()) =~= Seq::<T>::empty());
    assert(w.last() == a);
    assert(v.last() == b);
    match a {
        Some(x) => assert(somes(w) =~= seq![x]),
        None => assert(somes(w) =~= Seq::<T>::empty()),
    }
    match (a, b) {
        (Some(x), Some(y)) => assert(somes(v) =~= seq![x, y]),
        (Some(x), None) => assert(somes(v) =~= seq![x]),
        (None, Some(y)) => assert(somes(v) =~= seq![y]),
        (None, None) => {},
    }
}

/// A gimmick node's component: its qwords from `+0xC0`, and the objects
/// behind `+0xC0` and `+0xE0`.
pub struct GimmickRaw {
    pub comp: usize,
    pub words: String,
    pub sides: Vec<SideObject>,
}

fn side_object(mem: &Memory, md: &MainModule, comp: usize, o: usize) -> (r: Option<SideObject>)
    ensures
        match side_spec(mem@, *md, comp as int, o) {
            Some(v) => r matches Some(x) && side_view(x) == v,
            None => r is None,
        },
{
    let p = match mem.ptr_at(comp, o) {
        Some(p) => p,
        None => return None,
    };
    let class = match class_name(mem, md, p) {
        Some(c) => c,
        None => {
            let e: Vec<u8> = Vec::new();
            proof {
                lemma_ascii_encode(e@);
            }
            ascii_string(e)
        },
    };
    Some(SideObject { off: o, ptr: p, words: qwords(mem, p, 6), class })
}

#[verifier::spinoff_prover]
pub fn dump_gimmick_raw(mem: &Memory, md: &MainModule, actor: usize) -> (r: Option<GimmickRaw>)
    ensures
        match gimmick_comp_spec(mem@, *md, actor as int) {
            None => r is None,
            Some(c) => r matches Some(g) && g.comp == c && encode_utf8(g.words@) == qwords_upto(mem@, c + 0xC0, 6)
                && g.sides@.map_values(|x: SideObject| side_view(x)) == somes(
                seq![side_spec(mem@, *md, c as int, 0xC0), side_spec(mem@, *md, c as int, 0xE0)],
            ),
        },
{
    let comp = match gimmick_component(mem, md, actor) {
        Some(c) => c,
        None => return None,
    };
    let words = qwords_at(mem, comp, 0xC0, 6);
    let mut sides: Vec<SideObject> = Vec::new();
    let a = side_object(mem, md, comp, 0xC0);
    let b = side_object(mem, md, comp, 0xE0);
    match a {
        Some(x) => sides.push(x),
        None => {},
    }
    match b {
        Some(x) => sides.push(x),
        None => {},
    }
    proof {
        lemma_somes_two(side_spec(mem@, *md, comp as int, 0xC0), side_spec(mem@, *md, comp as int, 0xE0));
        assert(sides@.map_values(|x: SideObject| side_view(x)) =~= somes(
            seq![side_spec(mem@, *md, comp as int, 0xC0), side_spec(mem@, *md, comp as int, 0xE0)],
        ));
    }
    Some(GimmickRaw { comp, words, sides })
}

/// A word of a gimmick node's objects that is a gimmick record key: which
/// object (`None` for the component itself, else the offset of the pointer
/// to it), where in it, the key, the record and its name candidates.
pub struct KeyMatch {
    pub via: Option<usize>,
    pub off: usize,
    pub value: u32,
    pub rec: usize,
    pub names: Vec<String>,
}

pub open spec fn key_match_view(k: KeyMatch) -> (Option<usize>, usize, u32, usize, Seq<Seq<u8>>) {
    (k.via, k.off, k.value, k.rec, strings_view(k.names@))
}

/// Word `i` of the object at `base` against the key index: `None` when it
/// does not read, else the match it makes, if any. 0 and `0xFFFFFFFF` are
/// no keys.
#[verifier::opaque]
pub open spec fn word_match(
    m: Seq<SpecRegion>,
    index: Map<u32, usize>,
    via: Option<usize>,
    base: int,
    i: int,
) -> Option<Option<(Option<usize>, usize, u32, usize, Seq<Seq<u8>>)>> {
    match u32_at(m, base + 4 * i) {
        None => None,
        Some(v) => if v == 0 || v == 0xFFFF_FFFF || !index.contains_key(v) {
            Some(None)
        } else {
            Some(Some((via, (4 * i) as usize, v, index[v], name_candidates_spec(m, index[v] as int))))
        },
    }
}

/// Words `i..64` of the object at `base` that are keys of `index`, up to the
/// first that does not read.
pub open spec fn key_matches_from(
    m: Seq<SpecRegion>,
    index: Map<u32, usize>,
    via: Option<usize>,
    base: int,
    i: int,
) -> Seq<(Option<usize>, usize, u32, usize, Seq<Seq<u8>>)>
    decreases 64 - i,
{
    if i < 0 || i >= 64 {
        seq![]
    } else {
        match word_match(m, index, via, base, i) {
            None => seq![],
            Some(None) => key_matches_from(m, index, via, base, i + 1),
            Some(Some(t)) => seq![t] + key_matches_from(m, index, via, base, i + 1),
        }
    }
}

fn match_word(mem: &Memory, index: &HashMap<u32, usize>, via: Option<usize>, base: usize, i: usize) -> (r: Option<Option<KeyMatch>>)
    requires
        i < 64,
    ensures
        match word_match(mem@, index@, via, base as int, i as int) {
            None => r is None,
            Some(None) => r matches Some(None),
            Some(Some(t)) => r matches Some(Some(k)) && key_match_view(k) == t,
        },
{
    reveal(word_match);
    let v = match mem.u32_at(base, 4 * i) {
        Some(v) => v,
        None => return None,
    };
    if v == 0 || v == 0xFFFF_FFFF {
        return Some(None);
    }
    match index.get(&v) {
        Some(rec) => {
            let rec = *rec;
            Some(Some(KeyMatch { via, off: 4 * i, value: v, rec, names: gimmick_name_candidates(mem, rec) }))
        },
        None => Some(None),
    }
}

fn key_matches(mem: &Memory, index: &HashMap<u32, usize>, via: Option<usize>, base: usize, out: &mut Vec<KeyMatch>)
    ensures
        final(out)@.map_values(|k: KeyMatch| key_match_view(k)) == old(out)@.map_values(|k: KeyMatch| key_match_view(k))
            + key_matches_from(mem@, index@, via, base as int, 0),
{
    let ghost start = out@.map_values(|k: KeyMatch| key_match_view(k));
    let mut i: usize = 0;
    while i < 64
        invariant
            0 <= i <= 64,
            start == old(out)@.map_values(|k: KeyMatch| key_match_view(k)),
            start + key_matches_from(mem@, index@, via, base as int, 0) == out@.map_values(|k: KeyMatch| key_match_view(k))
                + key_matches_from(mem@, index@, via, base as int, i as int),
        decreases 64 - i,
    {
        let ghost rest = key_matches_from(mem@, index@, via, base as int, i + 1);
        match match_word(mem, index, via, base, i) {
            None => {
                proof {
                    let o = out@.map_values(|k: KeyMatch| key_match_view(k));
                    assert(key_matches_from(mem@, index@, via, base as int, i as int)
                        =~= Seq::<(Option<usize>, usize, u32, usize, Seq<Seq<u8>>)>::empty());
                    assert(o + Seq::<(Option<usize>, usize, u32, usize, Seq<Seq<u8>>)>::empty() =~= o);
                }
                return;
            },
            Some(None) => {},
            Some(Some(k)) => {
                proof {
                    let o = out@.map_values(|k: KeyMatch| key_match_view(k));
                    assert(out@.push(k).map_values(|k: KeyMatch| key_match_view(k)) =~= o.push(key_match_view(k)));
                    assert(o + (seq![key_match_view(k)] + rest) =~= o.push(key_match_view(k)) + rest);
                }
                out.push(k);
            },
        }
        i = i + 1;
    }
    proof {
        let o = out@.map_values(|k: KeyMatch| key_match_view(k));
        assert(o + Seq::<(Option<usize>, usize, u32, usize, Seq<Seq<u8>>)>::empty() =~= o);
    }
}

/// Every word of a gimmick node's component, and of the objects behind its
/// `+0xC0` and `+0xE0`, that is a key of the gimmick key index.
pub open spec fn gimmick_key_matches_spec(m: Seq<SpecRegion>, md: MainModule, actor: int, index: Map<u32, usize>) -> Seq<(Option<usize>, usize, u32, usize, Seq<Seq<u8>>)> {
    match gimmick_comp_spec(m, md, actor) {
        None => seq![],
        Some(comp) => {
            let side = |o: usize| match ptr_at(m, comp + o) {
                Some(p) => key_matches_from(m, index, Some(o), p as int, 0),
                None => seq![],
            };
            key_matches_from(m, index, None, comp as int, 0) + side(0xC0) + side(0xE0)
        },
    }
}

pub fn match_gimmick_keys(mem: &Memory, md: &MainModule, actor: usize, index: &HashMap<u32, usize>) -> (r: Vec<KeyMatch>)
    ensures
        r@.map_values(|k: KeyMatch| key_match_view(k)) == gimmick_key_matches_spec(mem@, *md, actor as int, index@),
{
    let mut out: Vec<KeyMatch> = Vec::new();
    let comp = match gimmick_component(mem, md, actor) {
        Some(c) => c,
        None => {
            assert(out@.map_values(|k: KeyMatch| key_match_view(k)) =~= Seq::<(Option<usize>, usize, u32, usize, Seq<Seq<u8>>)>::empty());
            return out;
        },
    };
    assert(out@.map_values(|k: KeyMatch| key_match_view(k)) =~= Seq::<(Option<usize>, usize, u32, usize, Seq<Seq<u8>>)>::empty());
    key_matches(mem, index, None, comp, &mut out);
    let ghost a = out@.map_values(|k: KeyMatch| key_match_view(k));
    match mem.ptr_at(comp, 0xC0) {
        Some(p) => key_matches(mem, index, Some(0xC0), p, &mut out),
        None => {},
    }
    let ghost b = out@.map_values(|k: KeyMatch| key_match_view(k));
    match mem.ptr_at(comp, 0xE0) {
        Some(p) => key_matches(mem, index, Some(0xE0), p, &mut out),
        None => {},
    }
    proof {
        let side = |o: usize| match ptr_at(mem@, comp + o) {
            Some(p) => key_matches_from(mem@, index@, Some(o), p as int, 0),
            None => Seq::<(Option<usize>, usize, u32, usize, Seq<Seq<u8>>)>::empty(),
        };
        assert(b =~= a + side(0xC0));
        assert(out@.map_values(|k: KeyMatch| key_match_view(k)) =~= b + side(0xE0));
    }
    out
}

/// A C string of at least four characters at `p`, read at most 48 bytes far.
pub open spec fn long_text(m: Seq<SpecRegion>, p: int) -> Option<Seq<u8>> {
    match cstr_at(m, p, 48) {
        Some(t) => if t.len() >= 4 { Some(t) } else { None },
        None => None,
    }
}

fn read_long_text(mem: &Memory, p: usize) -> (r: Option<String>)
    ensures
        opt_text(r) == long_text(mem@, p as int),
{
    match mem.read_cstr(p, 48) {
        Some(t) => {
            let ts = t.as_str();
            let n = ts.len();
            proof {
                lemma_cstr_ascii(mem@, p as int, 48);
            }
            assert(ts@ == t@);
            assert(n == ts.spec_bytes().len());
            if n >= 4 {
                Some(t)
            } else {
                None
            }
        },
        None => None,
    }
}

/// A pointer field of the type object that leads to a string or to a
/// classed object.
pub struct TypeField {
    pub off: usize,
    pub text: Option<String>,
    pub class: Option<String>,
}

pub open spec fn type_field_view(f: TypeField) -> (usize, Option<Seq<u8>>, Option<Seq<u8>>) {
    (f.off, opt_text(f.text), opt_text(f.class))
}

pub open spec fn type_field_spec(m: Seq<SpecRegion>, md: MainModule, obj: int, o: int) -> Option<(usize, Option<Seq<u8>>, Option<Seq<u8>>)> {
    match ptr_at(m, obj + o) {
        None => None,
        Some(p) => {
            let t = long_text(m, p as int);
            let c = opt_class(m, md, p as int);
            if t is None && c is None {
                None
            } else {
                Some((o as usize, t, c))
            }
        },
    }
}

/// Fields `0, 8, .. 8 * (k - 1)` that lead somewhere worth a line.
pub open spec fn type_fields_upto(m: Seq<SpecRegion>, md: MainModule, obj: int, k: int) -> Seq<(usize, Option<Seq<u8>>, Option<Seq<u8>>)>
    decreases k,
{
    if k <= 0 {
        seq![]
    } else {
        match type_field_spec(m, md, obj, 8 * (k - 1)) {
            Some(f) => type_fields_upto(m, md, obj, k - 1).push(f),
            None => type_fields_upto(m, md, obj, k - 1),
        }
    }
}

/// The object behind `+0xE0 -> [1]` on a gimmick node.
pub struct TypeObject {
    pub obj: usize,
    /// Its short class name, `?` when it has none.
    pub class: String,
    pub words: String,
    /// A record name reachable by the known record layouts.
    pub name: Option<String>,
    /// The class of the object behind its `+0x08`.
    pub chain: Option<String>,
    pub fields: Vec<TypeField>,
}

/// Where the type object of a gimmick node is.
pub open spec fn type_object_at(m: Seq<SpecRegion>, md: MainModule, actor: int) -> Option<usize> {
    match gimmick_comp_spec(m, md, actor) {
        None => None,
        Some(comp) => match ptr_at(m, comp + 0xE0) {
            None => None,
            Some(t) => ptr_at(m, t + 8),
        },
    }
}

pub fn dump_type_object(mem: &Memory, md: &MainModule, actor: usize) -> (r: Option<TypeObject>)
    ensures
        match type_object_at(mem@, *md, actor as int) {
            None => r is None,
            Some(obj) => r matches Some(t) && t.obj == obj
                && encode_utf8(t.class@) == (match opt_class(mem@, *md, obj as int) { Some(c) => c, None => seq![0x3Fu8] })
                && encode_utf8(t.words@) == qwords_upto(mem@, obj as int, 12)
                && opt_text(t.name) == record_name_any_spec(mem@, obj as int)
                && opt_text(t.chain) == (match ptr_at(mem@, obj + 8) { Some(p) => opt_class(mem@, *md, p as int), None => None })
                && t.fields@.map_values(|f: TypeField| type_field_view(f)) == type_fields_upto(mem@, *md, obj as int, 12),
        },
{
    let comp = match gimmick_component(mem, md, actor) {
        Some(c) => c,
        None => return None,
    };
    let t = match mem.ptr_at(comp, 0xE0) {
        Some(p) => p,
        None => return None,
    };
    let obj = match mem.ptr_at(t, 8) {
        Some(p) => p,
        None => return None,
    };
    let class = match class_name(mem, md, obj) {
        Some(c) => c,
        None => {
            let mut q: Vec<u8> = Vec::new();
            q.push(0x3F);
            proof {
                lemma_ascii_encode(q@);
            }
            ascii_string(q)
        },
    };
    let chain = match mem.ptr_at(obj, 8) {
        Some(p) => class_name(mem, md, p),
        None => None,
    };
    let mut fields: Vec<TypeField> = Vec::new();
    let mut k: usize = 0;
    while k < 12
        invariant
            0 <= k <= 12,
            fields@.map_values(|f: TypeField| type_field_view(f)) == type_fields_upto(mem@, *md, obj as int, k as int),
        decreases 12 - k,
    {
        match mem.ptr_at(obj, 8 * k) {
            Some(p) => {
                let text = read_long_text(mem, p);
                let class = class_name(mem, md, p);
                if text.is_some() || class.is_some() {
                    let f = TypeField { off: 8 * k, text, class };
                    proof {
                        assert(fields@.push(f).map_values(|f: TypeField| type_field_view(f))
                            =~= fields@.map_values(|f: TypeField| type_field_view(f)).push(type_field_view(f)));
                    }
                    fields.push(f);
                }
            },
            None => {},
        }
        k = k + 1;
    }
    Some(TypeObject { obj, class, words: qwords(mem, obj, 12), name: record_name_any(mem, obj), chain, fields })
}

// ---------------------------------------------------------------------------
// Where a node points at its definition
// ---------------------------------------------------------------------------

pub open spec fn is_alpha(b: u8) -> bool {
    (0x41 <= b <= 0x5A) || (0x61 <= b <= 0x7A)
}

/// Whether `s` holds an ASCII letter.
pub open spec fn has_alpha(s: Seq<u8>) -> bool {
    exists|i: int| 0 <= i < s.len() && is_alpha(#[trigger] s[i])
}

fn any_alpha(s: &str) -> (r: bool)
    ensures
        r == has_alpha(lit(s)),
{
    let b = s.as_bytes();
    let mut i: usize = 0;
    while i < b.len()
        invariant
            0 <= i <= b@.len(),
            b@ == lit(s),
            forall|j: int| 0 <= j < i ==> !is_alpha(#[trigger] b@[j]),
        decreases b@.len() - i,
    {
        let c = b[i];
        if (0x41 <= c && c <= 0x5A) || (0x61 <= c && c <= 0x7A) {
            assert(is_alpha(b@[i as int]));
            return true;
        }
        i = i + 1;
    }
    false
}

/// A pointer field that leads to a table record, or to a string worth a
/// line: a record pointer names its table, its index and its record's name;
/// any other pointer outside the module names the C string behind it when
/// that has four characters or more and a letter among them.
pub struct Link {
    pub off: usize,
    pub ptr: usize,
    pub record: Option<(String, usize)>,
    pub name: Option<String>,
    pub text: Option<String>,
}

pub open spec fn link_v(l: Link) -> (usize, usize, Option<(String, usize)>, Option<Seq<u8>>, Option<Seq<u8>>) {
    (l.off, l.ptr, l.record, opt_text(l.name), opt_text(l.text))
}

pub open spec fn links_view(v: Seq<Link>) -> Seq<(usize, usize, Option<(String, usize)>, Option<Seq<u8>>, Option<Seq<u8>>)> {
    v.map_values(|l: Link| link_v(l))
}

pub open spec fn link_spec(
    m: Seq<SpecRegion>,
    md: MainModule,
    records: Map<usize, (String, usize)>,
    base: int,
    off: int,
) -> Option<(usize, usize, Option<(String, usize)>, Option<Seq<u8>>, Option<Seq<u8>>)> {
    match ptr_at(m, base + off) {
        None => None,
        Some(p) => if records.contains_key(p) {
            Some((off as usize, p, Some(records[p]), record_name_any_spec(m, p as int), None))
        } else if in_module(md, p as int) {
            None
        } else {
            match cstr_at(m, p as int, 48) {
                Some(t) => if t.len() >= 4 && has_alpha(t) {
                    Some((off as usize, p, None, None, Some(t)))
                } else {
                    None
                },
                None => None,
            }
        },
    }
}

/// The links of fields `0, 8, .. 8 * (k - 1)` of the object at `base`.
pub open spec fn links_upto(
    m: Seq<SpecRegion>,
    md: MainModule,
    records: Map<usize, (String, usize)>,
    base: int,
    k: int,
) -> Seq<(usize, usize, Option<(String, usize)>, Option<Seq<u8>>, Option<Seq<u8>>)>
    decreases k,
{
    if k <= 0 {
        seq![]
    } else {
        match link_spec(m, md, records, base, 8 * (k - 1)) {
            Some(l) => links_upto(m, md, records, base, k - 1).push(l),
            None => links_upto(m, md, records, base, k - 1),
        }
    }
}

/// Fields in an object of `size` bytes, eight bytes each.
pub open spec fn fields_in(size: int) -> int {
    (size + 7) / 8
}

fn link_at(mem: &Memory, md: &MainModule, records: &HashMap<usize, (String, usize)>, base: usize, off: usize) -> (r: Option<Link>)
    ensures
        match link_spec(mem@, *md, records@, base as int, off as int) {
            Some(v) => r matches Some(l) && link_v(l) == v,
            None => r is None,
        },
{
    let p = match mem.ptr_at(base, off) {
        Some(p) => p,
        None => return None,
    };
    match records.get(&p) {
        Some(rec) => {
            let record = (rec.0.clone(), rec.1);
            return Some(Link { off, ptr: p, record: Some(record), name: record_name_any(mem, p), text: None });
        },
        None => {},
    }
    if md.contains(p) {
        return None;
    }
    match read_long_text(mem, p) {
        Some(t) => {
            let ts = t.as_str();
            proof {
                assert(lit(ts) == encode_utf8(t@));
            }
            if any_alpha(ts) {
                Some(Link { off, ptr: p, record: None, name: None, text: Some(t) })
            } else {
                None
            }
        },
        None => None,
    }
}

/// Scan an object's qwords for pointers into known table records or to
/// strings.
pub fn scan_links(
    mem: &Memory,
    md: &MainModule,
    base: usize,
    size: usize,
    records: &HashMap<usize, (String, usize)>,
) -> (r: Vec<Link>)
    ensures
        links_view(r@) == links_upto(mem@, *md, records@, base as int, fields_in(size as int)),
{
    let n = size / 8 + if size % 8 == 0 { 0 } else { 1 };
    assert(n == fields_in(size as int));
    let mut out: Vec<Link> = Vec::new();
    let mut k: usize = 0;
    while k < n
        invariant
            0 <= k <= n,
            n <= usize::MAX / 8 + 1,
            8 * n <= size + 7,
            links_view(out@) == links_upto(mem@, *md, records@, base as int, k as int),
        decreases n - k,
    {
        assert(8 * k <= usize::MAX);
        match link_at(mem, md, records, base, 8 * k) {
            Some(l) => {
                proof {
                    assert(links_view(out@.push(l)) =~= links_view(out@).push(link_v(l)));
                }
                out.push(l);
            },
            None => {},
        }
        k = k + 1;
    }
    out
}

/// A record pointer one level below a field: the field, the offset inside
/// the object it points at, the record, its table and index, and its name.
pub struct DeepLink {
    pub off: usize,
    pub off2: usize,
    pub ptr: usize,
    pub record: (String, usize),
    pub name: Option<String>,
}

pub open spec fn deep_v(l: DeepLink) -> (usize, usize, usize, (String, usize), Option<Seq<u8>>) {
    (l.off, l.off2, l.ptr, l.record, opt_text(l.name))
}

pub open spec fn deeps_view(v: Seq<DeepLink>) -> Seq<(usize, usize, usize, (String, usize), Option<Seq<u8>>)> {
    v.map_values(|l: DeepLink| deep_v(l))
}

/// The record pointers among words `0, 8, .. 8 * (k - 1)` of the object at
/// `p`, which field `off` of the scanned object points at.
pub open spec fn inner_links_upto(
    m: Seq<SpecRegion>,
    records: Map<usize, (String, usize)>,
    off: usize,
    p: int,
    k: int,
) -> Seq<(usize, usize, usize, (String, usize), Option<Seq<u8>>)>
    decreases k,
{
    if k <= 0 {
        seq![]
    } else {
        let rest = inner_links_upto(m, records, off, p, k - 1);
        match ptr_at(m, p + 8 * (k - 1)) {
            Some(q) => if records.contains_key(q) {
                rest.push((off, (8 * (k - 1)) as usize, q, records[q], record_name_any_spec(m, q as int)))
            } else {
                rest
            },
            None => rest,
        }
    }
}

/// What field `off` of the object at `base` leads to one level down: only
/// a pointer outside the module to `0x100` readable bytes is looked into.
pub open spec fn deep_at(
    m: Seq<SpecRegion>,
    md: MainModule,
    records: Map<usize, (String, usize)>,
    base: int,
    off: int,
) -> Seq<(usize, usize, usize, (String, usize), Option<Seq<u8>>)> {
    match ptr_at(m, base + off) {
        None => seq![],
        Some(p) => if in_module(md, p as int) || !readable(m, p as int, 0x100) {
            seq![]
        } else {
            inner_links_upto(m, records, off as usize, p as int, 32)
        },
    }
}

pub open spec fn deep_upto(
    m: Seq<SpecRegion>,
    md: MainModule,
    records: Map<usize, (String, usize)>,
    base: int,
    k: int,
) -> Seq<(usize, usize, usize, (String, usize), Option<Seq<u8>>)>
    decreases k,
{
    if k <= 0 {
        seq![]
    } else {
        deep_upto(m, md, records, base, k - 1) + deep_at(m, md, records, base, 8 * (k - 1))
    }
}

fn inner_links(
    mem: &Memory,
    records: &HashMap<usize, (String, usize)>,
    off: usize,
    p: usize,
    out: &mut Vec<DeepLink>,
)
    ensures
        deeps_view(final(out)@) == deeps_view(old(out)@) + inner_links_upto(mem@, records@, off, p as int, 32),
{
    let ghost start = deeps_view(out@);
    assert(start + inner_links_upto(mem@, records@, off, p as int, 0) =~= start);
    let mut k: usize = 0;
    while k < 32
        invariant
            0 <= k <= 32,
            start == deeps_view(old(out)@),
            deeps_view(out@) == start + inner_links_upto(mem@, records@, off, p as int, k as int),
        decreases 32 - k,
    {
        match mem.ptr_at(p, 8 * k) {
            Some(q) => match records.get(&q) {
                Some(rec) => {
                    let l = DeepLink { off, off2: 8 * k, ptr: q, record: (rec.0.clone(), rec.1), name: record_name_any(mem, q) };
                    proof {
                        assert(deeps_view(out@.push(l)) =~= deeps_view(out@).push(deep_v(l)));
                    }
                    out.push(l);
                },
                None => {},
            },
            None => {},
        }
        k = k + 1;
        proof {
            assert(start + inner_links_upto(mem@, records@, off, p as int, k as int) =~= deeps_view(out@));
        }
    }
}

/// One level deeper: for every pointer field of the object at `base`, the
/// record pointers in the first `0x100` bytes of its target.
pub fn scan_links_deep(
    mem: &Memory,
    md: &MainModule,
    base: usize,
    size: usize,
    records: &HashMap<usize, (String, usize)>,
) -> (r: Vec<DeepLink>)
    ensures
        deeps_view(r@) == deep_upto(mem@, *md, records@, base as int, fields_in(size as int)),
{
    let n = size / 8 + if size % 8 == 0 { 0 } else { 1 };
    let mut out: Vec<DeepLink> = Vec::new();
    assert(deeps_view(out@) =~= Seq::<(usize, usize, usize, (String, usize), Option<Seq<u8>>)>::empty());
    let mut k: usize = 0;
    while k < n
        invariant
            0 <= k <= n,
            n == fields_in(size as int),
            8 * n <= size + 7,
            deeps_view(out@) == deep_upto(mem@, *md, records@, base as int, k as int),
        decreases n - k,
    {
        let ghost before = deeps_view(out@);
        match mem.ptr_at(base, 8 * k) {
            Some(p) => {
                if !md.contains(p) && mem.readable(p, 0x100) {
                    inner_links(mem, records, 8 * k, p, &mut out);
                } else {
                    assert(before + Seq::<(usize, usize, usize, (String, usize), Option<Seq<u8>>)>::empty() =~= before);
                }
            },
            None => {
                assert(before + Seq::<(usize, usize, usize, (String, usize), Option<Seq<u8>>)>::empty() =~= before);
            },
        }
        k = k + 1;
    }
    out
}

/// What a gimmick component's pointer at `off` leads to: the object, its
/// class (`?` when none), the record it is when it is one, its first ten
/// qwords, and its links and deeper links.
pub struct SideTarget {
    pub ptr: usize,
    pub class: String,
    pub record: Option<(String, usize)>,
    pub words: String,
    pub links: Vec<Link>,
    pub deep: Vec<DeepLink>,
}

pub struct SideLinks {
    pub off: usize,
    pub target: Option<SideTarget>,
}

/// The links of one place: the actor, its sub-object, or a component.
pub struct PlaceLinks {
    pub label: String,
    pub base: usize,
    pub links: Vec<Link>,
    pub deep: Vec<DeepLink>,
    /// For a gimmick component, what `+0x420`, `+0x428` and `+0x5A8` lead to.
    pub sides: Vec<SideLinks>,
}

pub open spec fn class_or_q(m: Seq<SpecRegion>, md: MainModule, p: int) -> Seq<u8> {
    match opt_class(m, md, p) {
        Some(c) => c,
        None => seq![0x3Fu8],
    }
}

pub open spec fn side_links_v(x: SideLinks) -> (usize, Option<(usize, Seq<u8>, Option<(String, usize)>, Seq<u8>, Seq<(usize, usize, Option<(String, usize)>, Option<Seq<u8>>, Option<Seq<u8>>)>, Seq<(usize, usize, usize, (String, usize), Option<Seq<u8>>)>)>) {
    (x.off, match x.target {
        Some(t) => Some((t.ptr, encode_utf8(t.class@), t.record, encode_utf8(t.words@), links_view(t.links@), deeps_view(t.deep@))),
        None => None,
    })
}

#[verifier::opaque]
pub open spec fn side_links_spec(
    m: Seq<SpecRegion>,
    md: MainModule,
    records: Map<usize, (String, usize)>,
    comp: int,
    o: usize,
) -> (usize, Option<(usize, Seq<u8>, Option<(String, usize)>, Seq<u8>, Seq<(usize, usize, Option<(String, usize)>, Option<Seq<u8>>, Option<Seq<u8>>)>, Seq<(usize, usize, usize, (String, usize), Option<Seq<u8>>)>)>) {
    (o, match ptr_at(m, comp + o) {
        None => None,
        Some(p) => Some((
            p,
            class_or_q(m, md, p as int),
            if records.contains_key(p) { Some(records[p]) } else { None },
            qwords_upto(m, p as int, 10),
            links_upto(m, md, records, p as int, fields_in(0x200)),
            deep_upto(m, md, records, p as int, fields_in(0x100)),
        )),
    })
}

pub open spec fn place_v(x: PlaceLinks) -> (Seq<u8>, usize, Seq<(usize, usize, Option<(String, usize)>, Option<Seq<u8>>, Option<Seq<u8>>)>, Seq<(usize, usize, usize, (String, usize), Option<Seq<u8>>)>, Seq<(usize, Option<(usize, Seq<u8>, Option<(String, usize)>, Seq<u8>, Seq<(usize, usize, Option<(String, usize)>, Option<Seq<u8>>, Option<Seq<u8>>)>, Seq<(usize, usize, usize, (String, usize), Option<Seq<u8>>)>)>)>) {
    (encode_utf8(x.label@), x.base, links_view(x.links@), deeps_view(x.deep@), x.sides@.map_values(|y: SideLinks| side_links_v(y)))
}

pub open spec fn places_view(v: Seq<PlaceLinks>) -> Seq<(Seq<u8>, usize, Seq<(usize, usize, Option<(String, usize)>, Option<Seq<u8>>, Option<Seq<u8>>)>, Seq<(usize, usize, usize, (String, usize), Option<Seq<u8>>)>, Seq<(usize, Option<(usize, Seq<u8>, Option<(String, usize)>, Seq<u8>, Seq<(usize, usize, Option<(String, usize)>, Option<Seq<u8>>, Option<Seq<u8>>)>, Seq<(usize, usize, usize, (String, usize), Option<Seq<u8>>)>)>)>)> {
    v.map_values(|x: PlaceLinks| place_v(x))
}

#[verifier::opaque]
pub open spec fn place_spec(
    m: Seq<SpecRegion>,
    md: MainModule,
    records: Map<usize, (String, usize)>,
    label: Seq<u8>,
    base: int,
    size: int,
    gimmick: bool,
) -> (Seq<u8>, usize, Seq<(usize, usize, Option<(String, usize)>, Option<Seq<u8>>, Option<Seq<u8>>)>, Seq<(usize, usize, usize, (String, usize), Option<Seq<u8>>)>, Seq<(usize, Option<(usize, Seq<u8>, Option<(String, usize)>, Seq<u8>, Seq<(usize, usize, Option<(String, usize)>, Option<Seq<u8>>, Option<Seq<u8>>)>, Seq<(usize, usize, usize, (String, usize), Option<Seq<u8>>)>)>)>) {
    (
        label,
        base as usize,
        links_upto(m, md, records, base, fields_in(size)),
        deep_upto(m, md, records, base, fields_in(size)),
        if gimmick {
            seq![
                side_links_spec(m, md, records, base, 0x420),
                side_links_spec(m, md, records, base, 0x428),
                side_links_spec(m, md, records, base, 0x5A8),
            ]
        } else {
            seq![]
        },
    )
}

pub open spec fn gimmick_word() -> Seq<u8> {
    lit("Gimmick")
}

/// The places of components `0..k`: each that reads, under its label, as
/// large as a gimmick component (`0x600`) or another (`0x300`).
pub open spec fn comp_places_upto(
    m: Seq<SpecRegion>,
    md: MainModule,
    records: Map<usize, (String, usize)>,
    sub: int,
    comps: Seq<(usize, Seq<u8>)>,
    k: int,
) -> Seq<(Seq<u8>, usize, Seq<(usize, usize, Option<(String, usize)>, Option<Seq<u8>>, Option<Seq<u8>>)>, Seq<(usize, usize, usize, (String, usize), Option<Seq<u8>>)>, Seq<(usize, Option<(usize, Seq<u8>, Option<(String, usize)>, Seq<u8>, Seq<(usize, usize, Option<(String, usize)>, Option<Seq<u8>>, Option<Seq<u8>>)>, Seq<(usize, usize, usize, (String, usize), Option<Seq<u8>>)>)>)>)>
    decreases k,
{
    if k <= 0 {
        seq![]
    } else {
        let rest = comp_places_upto(m, md, records, sub, comps, k - 1);
        let (off, name) = comps[k - 1];
        match ptr_at(m, sub + off) {
            None => rest,
            Some(c) => {
                let g = has_sub(name, gimmick_word());
                rest.push(place_spec(m, md, records, component_label_spec(short_name_spec(name)), c as int, if g { 0x600 } else { 0x300 }, g))
            },
        }
    }
}

/// Where a node points at its definition: the actor, its sub-object, every
/// component, and for a gimmick component the three objects it keeps.
pub open spec fn record_links_spec(m: Seq<SpecRegion>, md: MainModule, actor: int, records: Map<usize, (String, usize)>) -> Seq<(Seq<u8>, usize, Seq<(usize, usize, Option<(String, usize)>, Option<Seq<u8>>, Option<Seq<u8>>)>, Seq<(usize, usize, usize, (String, usize), Option<Seq<u8>>)>, Seq<(usize, Option<(usize, Seq<u8>, Option<(String, usize)>, Seq<u8>, Seq<(usize, usize, Option<(String, usize)>, Option<Seq<u8>>, Option<Seq<u8>>)>, Seq<(usize, usize, usize, (String, usize), Option<Seq<u8>>)>)>)>)> {
    let first = seq![place_spec(m, md, records, lit("actor"), actor, 0x300, false)];
    match ptr_at(m, actor + 0x68) {
        None => first,
        Some(sub) => {
            let comps = component_names_spec(m, md, actor);
            first + seq![place_spec(m, md, records, lit("sub"), sub as int, 0x400, false)] + comp_places_upto(
                m,
                md,
                records,
                sub as int,
                comps,
                comps.len() as int,
            )
        },
    }
}

fn side_links(mem: &Memory, md: &MainModule, records: &HashMap<usize, (String, usize)>, comp: usize, o: usize) -> (r: SideLinks)
    ensures
        side_links_v(r) == side_links_spec(mem@, *md, records@, comp as int, o),
{
    reveal(side_links_spec);
    let p = match mem.ptr_at(comp, o) {
        Some(p) => p,
        None => return SideLinks { off: o, target: None },
    };
    let class = match class_name(mem, md, p) {
        Some(c) => c,
        None => {
            let mut q: Vec<u8> = Vec::new();
            q.push(0x3F);
            proof {
                lemma_ascii_encode(q@);
            }
            ascii_string(q)
        },
    };
    let record = match records.get(&p) {
        Some(r) => Some((r.0.clone(), r.1)),
        None => None,
    };
    SideLinks {
        off: o,
        target: Some(SideTarget {
            ptr: p,
            class,
            record,
            words: qwords(mem, p, 10),
            links: scan_links(mem, md, p, 0x200, records),
            deep: scan_links_deep(mem, md, p, 0x100, records),
        }),
    }
}

#[verifier::spinoff_prover]
fn place_links(
    mem: &Memory,
    md: &MainModule,
    records: &HashMap<usize, (String, usize)>,
    label: String,
    base: usize,
    size: usize,
    gimmick: bool,
) -> (r: PlaceLinks)
    ensures
        place_v(r) == place_spec(mem@, *md, records@, encode_utf8(label@), base as int, size as int, gimmick),
{
    reveal(place_spec);
    let links = scan_links(mem, md, base, size, records);
    let deep = scan_links_deep(mem, md, base, size, records);
    let mut sides: Vec<SideLinks> = Vec::new();
    if gimmick {
        sides.push(side_links(mem, md, records, base, 0x420));
        sides.push(side_links(mem, md, records, base, 0x428));
        sides.push(side_links(mem, md, records, base, 0x5A8));
    }
    let r = PlaceLinks { label, base, links, deep, sides };
    proof {
        if gimmick {
            assert(r.sides@.map_values(|y: SideLinks| side_links_v(y)) =~= seq![
                side_links_spec(mem@, *md, records@, base as int, 0x420),
                side_links_spec(mem@, *md, records@, base as int, 0x428),
                side_links_spec(mem@, *md, records@, base as int, 0x5A8),
            ]);
        } else {
            assert(r.sides@.map_values(|y: SideLinks| side_links_v(y)) =~= Seq::<(usize, Option<(usize, Seq<u8>, Option<(String, usize)>, Seq<u8>, Seq<(usize, usize, Option<(String, usize)>, Option<Seq<u8>>, Option<Seq<u8>>)>, Seq<(usize, usize, usize, (String, usize), Option<Seq<u8>>)>)>)>::empty());
        }
    }
    r
}


/// Where does a node point at its definition? The actor, its sub-object,
/// every component, and one level below each of them; for a gimmick
/// component also the three objects it keeps.
#[verifier::spinoff_prover]
pub fn find_record_links(mem: &Memory, md: &MainModule, actor: usize, records: &HashMap<usize, (String, usize)>) -> (r: Vec<PlaceLinks>)
    ensures
        places_view(r@) == record_links_spec(mem@, *md, actor as int, records@),
{
    let mut out: Vec<PlaceLinks> = Vec::new();
    let first = place_links(mem, md, records, String::from_str("actor"), actor, 0x300, false);
    out.push(first);
    proof {
        assert(places_view(out@) =~= seq![place_spec(mem@, *md, records@, lit("actor"), actor as int, 0x300, false)]);
    }
    let sub = match mem.ptr_at(actor, 0x68) {
        Some(p) => p,
        None => return out,
    };
    let second = place_links(mem, md, records, String::from_str("sub"), sub, 0x400, false);
    proof {
        assert(places_view(out@.push(second)) =~= places_view(out@).push(place_v(second)));
    }
    out.push(second);
    let ghost head = places_view(out@);
    let comps = component_names(mem, md, actor);
    let ghost cv = comps_view(comps@);
    assert(head + comp_places_upto(mem@, *md, records@, sub as int, cv, 0) =~= head);
    let mut i: usize = 0;
    while i < comps.len()
        invariant
            0 <= i <= comps@.len(),
            cv == comps_view(comps@),
            cv == component_names_spec(mem@, *md, actor as int),
            places_view(out@) == head + comp_places_upto(mem@, *md, records@, sub as int, cv, i as int),
        decreases comps@.len() - i,
    {
        let off = comps[i].0;
        assert(cv[i as int] == (off, encode_utf8(comps@[i as int].1@)));
        match mem.ptr_at(sub, off) {
            Some(c) => {
                let name = comps[i].1.as_str();
                proof {
                    assert(lit(name) == encode_utf8(comps@[i as int].1@));
                }
                let g = contains_sub(name.as_bytes(), "Gimmick".as_bytes());
                let short = short_name(name);
                let sh = short.as_str();
                let label = component_label(sh);
                proof {
                    assert(lit(sh) == encode_utf8(short@));
                }
                let size: usize = if g { 0x600 } else { 0x300 };
                let pl = place_links(mem, md, records, label, c, size, g);
                proof {
                    assert(places_view(out@.push(pl)) =~= places_view(out@).push(place_v(pl)));
                }
                out.push(pl);
            },
            None => {},
        }
        i = i + 1;
    }
    out
}

// ---------------------------------------------------------------------------
// The places of a node a scan looks through
// ---------------------------------------------------------------------------

/// How far a scan looks into each place of a node: the actor, its
/// sub-object, a gimmick component and any other component; which of a
/// gimmick component's pointers it follows, and how far into their targets;
/// and whether it goes one step further through `+0xE0 -> [1]`.
pub struct PlaceRule {
    pub actor: usize,
    pub sub: usize,
    pub gimmick: usize,
    pub other: usize,
    pub sides: Vec<usize>,
    pub side_size: usize,
    pub type_object: bool,
}

pub open spec fn hex_label(label: Seq<u8>, o: usize) -> Seq<u8> {
    label + lit("+0x") + hex_upper(o as nat) + lit("->")
}

/// The places behind a gimmick component's pointers `sides[0..k]`.
pub open spec fn side_places_upto(
    m: Seq<SpecRegion>,
    label: Seq<u8>,
    comp: int,
    sides: Seq<usize>,
    side_size: usize,
    type_object: bool,
    k: int,
) -> Seq<(Seq<u8>, usize, usize)>
    decreases k,
{
    if k <= 0 {
        seq![]
    } else {
        let rest = side_places_upto(m, label, comp, sides, side_size, type_object, k - 1);
        let o = sides[k - 1];
        match ptr_at(m, comp + o) {
            None => rest,
            Some(p) => {
                let here = rest.push((hex_label(label, o), p, side_size));
                if type_object && o == 0xE0 {
                    match ptr_at(m, p + 8) {
                        Some(q) => here.push((label + lit("+0xE0->[1]->"), q, side_size)),
                        None => here,
                    }
                } else {
                    here
                }
            },
        }
    }
}

/// The places of components `0..k`.
pub open spec fn comp_places_of(
    m: Seq<SpecRegion>,
    sub: int,
    comps: Seq<(usize, Seq<u8>)>,
    rule: (usize, usize, Seq<usize>, usize, bool),
    k: int,
) -> Seq<(Seq<u8>, usize, usize)>
    decreases k,
{
    if k <= 0 {
        seq![]
    } else {
        let rest = comp_places_of(m, sub, comps, rule, k - 1);
        let (off, name) = comps[k - 1];
        match ptr_at(m, sub + off) {
            None => rest,
            Some(c) => {
                let g = has_sub(name, gimmick_word());
                let label = component_label_spec(short_name_spec(name));
                let here = rest.push((label, c, if g { rule.0 } else { rule.1 }));
                if g {
                    here + side_places_upto(m, label, c as int, rule.2, rule.3, rule.4, rule.2.len() as int)
                } else {
                    here
                }
            },
        }
    }
}

/// Every place of a node a scan under `rule` looks through, with its label
/// and how far it looks: `(label, base, size)`.
pub open spec fn node_places_spec(
    m: Seq<SpecRegion>,
    md: MainModule,
    actor: int,
    rule: (usize, usize, usize, usize, Seq<usize>, usize, bool),
) -> Seq<(Seq<u8>, usize, usize)> {
    let first = seq![(lit("actor"), actor as usize, rule.0)];
    match ptr_at(m, actor + 0x68) {
        None => first,
        Some(sub) => {
            let comps = component_names_spec(m, md, actor);
            first + seq![(lit("sub"), sub, rule.1)] + comp_places_of(
                m,
                sub as int,
                comps,
                (rule.2, rule.3, rule.4, rule.5, rule.6),
                comps.len() as int,
            )
        },
    }
}

pub open spec fn place_rule_v(r: PlaceRule) -> (usize, usize, usize, usize, Seq<usize>, usize, bool) {
    (r.actor, r.sub, r.gimmick, r.other, r.sides@, r.side_size, r.type_object)
}

pub open spec fn places_spec_view(v: Seq<(String, usize, usize)>) -> Seq<(Seq<u8>, usize, usize)> {
    v.map_values(|x: (String, usize, usize)| (encode_utf8(x.0@), x.1, x.2))
}

proof fn lemma_places_push(v: Seq<(String, usize, usize)>, x: (String, usize, usize))
    ensures
        places_spec_view(v.push(x)) == places_spec_view(v).push((encode_utf8(x.0@), x.1, x.2)),
{
    assert(places_spec_view(v.push(x)) =~= places_spec_view(v).push((encode_utf8(x.0@), x.1, x.2)));
}

/// `label+0xO->` as text.
fn side_label(label: &str, o: usize) -> (r: String)
    requires
        vstd::utf8::valid_utf8(lit(label)),
    ensures
        encode_utf8(r@) == hex_label(lit(label), o),
{
    let mut out: Vec<u8> = Vec::new();
    crate::strings::push_text(&mut out, label);
    crate::strings::push_text(&mut out, "+0x");
    let ghost before = out@;
    push_hex_upper(&mut out, o as u64);
    proof {
        lemma_hex_upper_ascii(o as nat);
        crate::utf8_cuts::lemma_ascii_valid(hex_upper(o as nat));
        vstd::utf8::valid_utf8_concat(before, hex_upper(o as nat));
    }
    crate::strings::push_text(&mut out, "->");
    crate::strings::text_string(out)
}

fn side_places(
    mem: &Memory,
    label: &str,
    comp: usize,
    rule: &PlaceRule,
    out: &mut Vec<(String, usize, usize)>,
)
    requires
        vstd::utf8::valid_utf8(lit(label)),
    ensures
        places_spec_view(final(out)@) == places_spec_view(old(out)@) + side_places_upto(
            mem@,
            lit(label),
            comp as int,
            rule.sides@,
            rule.side_size,
            rule.type_object,
            rule.sides@.len() as int,
        ),
{
    let ghost start = places_spec_view(out@);
    assert(start + side_places_upto(mem@, lit(label), comp as int, rule.sides@, rule.side_size, rule.type_object, 0) =~= start);
    let mut k: usize = 0;
    while k < rule.sides.len()
        invariant
            0 <= k <= rule.sides@.len(),
            vstd::utf8::valid_utf8(lit(label)),
            start == places_spec_view(old(out)@),
            places_spec_view(out@) == start + side_places_upto(mem@, lit(label), comp as int, rule.sides@, rule.side_size, rule.type_object, k as int),
        decreases rule.sides@.len() - k,
    {
        let o = rule.sides[k];
        let ghost before = places_spec_view(out@);
        let ghost rest = side_places_upto(mem@, lit(label), comp as int, rule.sides@, rule.side_size, rule.type_object, k as int);
        match mem.ptr_at(comp, o) {
            Some(p) => {
                let x = (side_label(label, o), p, rule.side_size);
                proof {
                    lemma_places_push(out@, x);
                }
                out.push(x);
                if rule.type_object && o == 0xE0 {
                    match mem.ptr_at(p, 8) {
                        Some(q) => {
                            let mut t: Vec<u8> = Vec::new();
                            crate::strings::push_text(&mut t, label);
                            crate::strings::push_text(&mut t, "+0xE0->[1]->");
                            let y = (crate::strings::text_string(t), q, rule.side_size);
                            proof {
                                lemma_places_push(out@, y);
                            }
                            out.push(y);
                        },
                        None => {},
                    }
                }
            },
            None => {},
        }
        proof {
            assert(places_spec_view(out@) =~= start + side_places_upto(mem@, lit(label), comp as int, rule.sides@, rule.side_size, rule.type_object, k + 1));
        }
        k = k + 1;
    }
}

/// Every place of a node a scan under `rule` looks through.
pub fn node_places(mem: &Memory, md: &MainModule, actor: usize, rule: &PlaceRule) -> (r: Vec<(String, usize, usize)>)
    ensures
        places_spec_view(r@) == node_places_spec(mem@, *md, actor as int, place_rule_v(*rule)),
{
    let mut out: Vec<(String, usize, usize)> = Vec::new();
    out.push((String::from_str("actor"), actor, rule.actor));
    proof {
        assert(places_spec_view(out@) =~= seq![(lit("actor"), actor, rule.actor)]);
    }
    let sub = match mem.ptr_at(actor, 0x68) {
        Some(p) => p,
        None => return out,
    };
    let x = (String::from_str("sub"), sub, rule.sub);
    proof {
        lemma_places_push(out@, x);
    }
    out.push(x);
    let ghost head = places_spec_view(out@);
    let comps = component_names(mem, md, actor);
    let ghost cv = comps_view(comps@);
    assert(head + comp_places_of(mem@, sub as int, cv, (rule.gimmick, rule.other, rule.sides@, rule.side_size, rule.type_object), 0) =~= head);
    let mut i: usize = 0;
    while i < comps.len()
        invariant
            0 <= i <= comps@.len(),
            cv == comps_view(comps@),
            cv == component_names_spec(mem@, *md, actor as int),
            places_spec_view(out@) == head + comp_places_of(mem@, sub as int, cv, (rule.gimmick, rule.other, rule.sides@, rule.side_size, rule.type_object), i as int),
        decreases comps@.len() - i,
    {
        let off = comps[i].0;
        assert(cv[i as int] == (off, encode_utf8(comps@[i as int].1@)));
        let ghost before = places_spec_view(out@);
        match mem.ptr_at(sub, off) {
            Some(c) => {
                let name = comps[i].1.as_str();
                proof {
                    assert(lit(name) == encode_utf8(comps@[i as int].1@));
                }
                let g = contains_sub(name.as_bytes(), "Gimmick".as_bytes());
                let short = short_name(name);
                let sh = short.as_str();
                proof {
                    assert(lit(sh) == encode_utf8(short@));
                }
                let label = component_label(sh);
                let size = if g { rule.gimmick } else { rule.other };
                proof {
                    vstd::utf8::encode_utf8_valid_utf8(label@);
                }
                let lbl = label.clone();
                let x = (label, c, size);
                proof {
                    lemma_places_push(out@, x);
                }
                out.push(x);
                if g {
                    let lb = lbl.as_str();
                    proof {
                        assert(lit(lb) == encode_utf8(lbl@));
                    }
                    side_places(mem, lb, c, rule, &mut out);
                }
            },
            None => {},
        }
        i = i + 1;
    }
    out
}

// ---------------------------------------------------------------------------
// Words of a node's places that are record keys
// ---------------------------------------------------------------------------

/// One place a key was found in the record tables: the table, the index,
/// the record and its name.
pub struct KeyRef {
    pub table: String,
    pub index: usize,
    pub rec: usize,
    pub name: Option<String>,
}

pub open spec fn key_ref_v(r: KeyRef) -> (String, usize, usize, Option<Seq<u8>>) {
    (r.table, r.index, r.rec, opt_text(r.name))
}

/// A word of one of a node's places that is a record key: the place, the
/// offset, the key, and where the key was found.
pub struct KeyHit {
    pub label: String,
    pub off: usize,
    pub value: u32,
    pub refs: Vec<KeyRef>,
}

pub open spec fn key_hit_v(h: KeyHit) -> (Seq<u8>, usize, u32, Seq<(String, usize, usize, Option<Seq<u8>>)>) {
    (encode_utf8(h.label@), h.off, h.value, h.refs@.map_values(|r: KeyRef| key_ref_v(r)))
}

pub open spec fn key_hits_view(v: Seq<KeyHit>) -> Seq<(Seq<u8>, usize, u32, Seq<(String, usize, usize, Option<Seq<u8>>)>)> {
    v.map_values(|h: KeyHit| key_hit_v(h))
}

/// The first `take` places a key was found in, each with its record's name.
pub open spec fn refs_of(m: Seq<SpecRegion>, hits: Seq<(String, usize, usize)>, take: int) -> Seq<(String, usize, usize, Option<Seq<u8>>)> {
    let t = if hits.len() < take { hits.len() as int } else { take };
    Seq::new(t as nat, |j: int| (hits[j].0, hits[j].1, hits[j].2, record_name_any_spec(m, hits[j].2 as int)))
}

pub open spec fn keys_view(keys: Map<u32, Vec<(String, usize, usize)>>) -> Map<u32, Seq<(String, usize, usize)>> {
    keys.map_values(|v: Vec<(String, usize, usize)>| v@)
}

/// Words `i..n` of the place at `base`, four bytes each, up to the first
/// that does not read, that are keys: each with its first four places.
pub open spec fn key_hits_from(
    m: Seq<SpecRegion>,
    keys: Map<u32, Seq<(String, usize, usize)>>,
    label: Seq<u8>,
    base: int,
    i: int,
    n: int,
) -> Seq<(Seq<u8>, usize, u32, Seq<(String, usize, usize, Option<Seq<u8>>)>)>
    decreases n - i,
{
    if i < 0 || i >= n {
        seq![]
    } else {
        match u32_at(m, base + 4 * i) {
            None => seq![],
            Some(v) => {
                let rest = key_hits_from(m, keys, label, base, i + 1, n);
                if keys.contains_key(v) {
                    seq![(label, (4 * i) as usize, v, refs_of(m, keys[v], 4))] + rest
                } else {
                    rest
                }
            },
        }
    }
}

/// Words in a place of `size` bytes, four bytes each.
pub open spec fn words_in(size: int) -> int {
    (size + 3) / 4
}

pub open spec fn key_hits_over(
    m: Seq<SpecRegion>,
    keys: Map<u32, Seq<(String, usize, usize)>>,
    places: Seq<(Seq<u8>, usize, usize)>,
    k: int,
) -> Seq<(Seq<u8>, usize, u32, Seq<(String, usize, usize, Option<Seq<u8>>)>)>
    decreases k,
{
    if k <= 0 {
        seq![]
    } else {
        let (label, base, size) = places[k - 1];
        key_hits_over(m, keys, places, k - 1) + key_hits_from(m, keys, label, base as int, 0, words_in(size as int))
    }
}

fn key_refs(mem: &Memory, hits: &Vec<(String, usize, usize)>, take: usize) -> (r: Vec<KeyRef>)
    ensures
        r@.map_values(|x: KeyRef| key_ref_v(x)) == refs_of(mem@, hits@, take as int),
{
    let t = if hits.len() < take { hits.len() } else { take };
    let mut out: Vec<KeyRef> = Vec::new();
    let mut j: usize = 0;
    while j < t
        invariant
            0 <= j <= t,
            t <= hits@.len(),
            t == (if hits@.len() < take { hits@.len() as int } else { take as int }),
            out@.map_values(|x: KeyRef| key_ref_v(x)) == refs_of(mem@, hits@, take as int).take(j as int),
        decreases t - j,
    {
        let (table, index, rec) = (hits[j].0.clone(), hits[j].1, hits[j].2);
        let x = KeyRef { table, index, rec, name: record_name_any(mem, rec) };
        proof {
            let all = refs_of(mem@, hits@, take as int);
            assert(all[j as int] == (hits@[j as int].0, hits@[j as int].1, hits@[j as int].2, record_name_any_spec(mem@, hits@[j as int].2 as int)));
            assert(key_ref_v(x) == all[j as int]);
            assert(out@.push(x).map_values(|x: KeyRef| key_ref_v(x)) =~= out@.map_values(|x: KeyRef| key_ref_v(x)).push(key_ref_v(x)));
            assert(all.take(j + 1) =~= all.take(j as int).push(all[j as int]));
        }
        out.push(x);
        j = j + 1;
    }
    assert(refs_of(mem@, hits@, take as int).take(t as int) =~= refs_of(mem@, hits@, take as int));
    out
}

fn key_hits_in(
    mem: &Memory,
    keys: &HashMap<u32, Vec<(String, usize, usize)>>,
    label: &String,
    base: usize,
    size: usize,
    out: &mut Vec<KeyHit>,
)
    ensures
        key_hits_view(final(out)@) == key_hits_view(old(out)@) + key_hits_from(
            mem@,
            keys_view(keys@),
            encode_utf8(label@),
            base as int,
            0,
            words_in(size as int),
        ),
{
    let n = size / 4 + if size % 4 == 0 { 0 } else { 1 };
    let ghost lab = encode_utf8(label@);
    let ghost start = key_hits_view(out@);
    let mut i: usize = 0;
    while i < n
        invariant
            0 <= i <= n,
            n == words_in(size as int),
            4 * n <= size + 3,
            lab == encode_utf8(label@),
            start == key_hits_view(old(out)@),
            start + key_hits_from(mem@, keys_view(keys@), lab, base as int, 0, n as int) == key_hits_view(out@)
                + key_hits_from(mem@, keys_view(keys@), lab, base as int, i as int, n as int),
        decreases n - i,
    {
        let ghost rest = key_hits_from(mem@, keys_view(keys@), lab, base as int, i + 1, n as int);
        let v = match mem.u32_at(base, 4 * i) {
            Some(v) => v,
            None => {
                proof {
                    let o = key_hits_view(out@);
                    assert(key_hits_from(mem@, keys_view(keys@), lab, base as int, i as int, n as int)
                        =~= Seq::<(Seq<u8>, usize, u32, Seq<(String, usize, usize, Option<Seq<u8>>)>)>::empty());
                    assert(o + Seq::<(Seq<u8>, usize, u32, Seq<(String, usize, usize, Option<Seq<u8>>)>)>::empty() =~= o);
                }
                return;
            },
        };
        match keys.get(&v) {
            Some(hits) => {
                proof {
                    assert(keys_view(keys@)[v] == hits@);
                }
                let h = KeyHit { label: label.clone(), off: 4 * i, value: v, refs: key_refs(mem, hits, 4) };
                proof {
                    let o = key_hits_view(out@);
                    assert(key_hits_view(out@.push(h)) =~= o.push(key_hit_v(h)));
                    assert(o + (seq![key_hit_v(h)] + rest) =~= o.push(key_hit_v(h)) + rest);
                }
                out.push(h);
            },
            None => {},
        }
        i = i + 1;
    }
    proof {
        let o = key_hits_view(out@);
        assert(o + Seq::<(Seq<u8>, usize, u32, Seq<(String, usize, usize, Option<Seq<u8>>)>)>::empty() =~= o);
    }
}

/// How far `find_key_links` looks: `0x300` of the actor, `0x400` of its
/// sub-object, `0x600` of a gimmick component and `0x300` of another, and
/// `0x80` behind a gimmick component's `+0xC0`, `+0xE0`, `+0x420`, `+0x428`.
pub open spec fn key_links_rule() -> (usize, usize, usize, usize, Seq<usize>, usize, bool) {
    (0x300, 0x400, 0x600, 0x300, seq![0xC0usize, 0xE0, 0x420, 0x428], 0x80, false)
}

fn key_links_places() -> (r: PlaceRule)
    ensures
        place_rule_v(r) == key_links_rule(),
{
    let mut sides: Vec<usize> = Vec::new();
    sides.push(0xC0);
    sides.push(0xE0);
    sides.push(0x420);
    sides.push(0x428);
    assert(sides@ =~= seq![0xC0usize, 0xE0, 0x420, 0x428]);
    PlaceRule { actor: 0x300, sub: 0x400, gimmick: 0x600, other: 0x300, sides, side_size: 0x80, type_object: false }
}

fn hits_over(
    mem: &Memory,
    keys: &HashMap<u32, Vec<(String, usize, usize)>>,
    places: &Vec<(String, usize, usize)>,
) -> (r: Vec<KeyHit>)
    ensures
        key_hits_view(r@) == key_hits_over(mem@, keys_view(keys@), places_spec_view(places@), places@.len() as int),
{
    let mut out: Vec<KeyHit> = Vec::new();
    assert(key_hits_view(out@) =~= Seq::<(Seq<u8>, usize, u32, Seq<(String, usize, usize, Option<Seq<u8>>)>)>::empty());
    let mut k: usize = 0;
    while k < places.len()
        invariant
            0 <= k <= places@.len(),
            key_hits_view(out@) == key_hits_over(mem@, keys_view(keys@), places_spec_view(places@), k as int),
        decreases places@.len() - k,
    {
        let (label, base, size) = (&places[k].0, places[k].1, places[k].2);
        key_hits_in(mem, keys, label, base, size, &mut out);
        k = k + 1;
    }
    out
}

/// Every word of a node's objects that is a record key.
pub fn find_key_links(mem: &Memory, md: &MainModule, actor: usize, keys: &HashMap<u32, Vec<(String, usize, usize)>>) -> (r: Vec<KeyHit>)
    ensures
        key_hits_view(r@) == key_hits_over(
            mem@,
            keys_view(keys@),
            node_places_spec(mem@, *md, actor as int, key_links_rule()),
            node_places_spec(mem@, *md, actor as int, key_links_rule()).len() as int,
        ),
{
    let rule = key_links_places();
    let places = node_places(mem, md, actor, &rule);
    hits_over(mem, keys, &places)
}

/// The places a key was found in the gimmick record table, in order.
pub open spec fn gimmick_refs(hits: Seq<(String, usize, usize)>) -> Seq<(String, usize, usize)>
    decreases hits.len(),
{
    if hits.len() == 0 {
        seq![]
    } else {
        let rest = gimmick_refs(hits.drop_last());
        if hits.last().0@ == "GimmickInfoManager"@ {
            rest.push(hits.last())
        } else {
            rest
        }
    }
}

/// A word of a node's places that is a gimmick record key (with its first
/// two places in that table), or that lies in the range the collect
/// families' keys use without being one.
pub struct HuntHit {
    pub label: String,
    pub off: usize,
    pub value: u32,
    pub refs: Vec<KeyRef>,
    pub collect_range: bool,
}

pub open spec fn hunt_hit_v(h: HuntHit) -> (Seq<u8>, usize, u32, Seq<(String, usize, usize, Option<Seq<u8>>)>, bool) {
    (encode_utf8(h.label@), h.off, h.value, h.refs@.map_values(|r: KeyRef| key_ref_v(r)), h.collect_range)
}

pub open spec fn hunt_hits_view(v: Seq<HuntHit>) -> Seq<(Seq<u8>, usize, u32, Seq<(String, usize, usize, Option<Seq<u8>>)>, bool)> {
    v.map_values(|h: HuntHit| hunt_hit_v(h))
}

pub open spec fn in_collect_range(v: u32) -> bool {
    17_000_000 <= v < 17_999_999
}

pub open spec fn hunt_from(
    m: Seq<SpecRegion>,
    keys: Map<u32, Seq<(String, usize, usize)>>,
    label: Seq<u8>,
    base: int,
    i: int,
    n: int,
) -> Seq<(Seq<u8>, usize, u32, Seq<(String, usize, usize, Option<Seq<u8>>)>, bool)>
    decreases n - i,
{
    if i < 0 || i >= n {
        seq![]
    } else {
        match u32_at(m, base + 4 * i) {
            None => seq![],
            Some(v) => {
                let rest = hunt_from(m, keys, label, base, i + 1, n);
                let gims = if keys.contains_key(v) { gimmick_refs(keys[v]) } else { seq![] };
                if gims.len() > 0 {
                    seq![(label, (4 * i) as usize, v, refs_of(m, gims, 2), false)] + rest
                } else if in_collect_range(v) {
                    seq![(label, (4 * i) as usize, v, seq![], true)] + rest
                } else {
                    rest
                }
            },
        }
    }
}

pub open spec fn hunt_over(
    m: Seq<SpecRegion>,
    keys: Map<u32, Seq<(String, usize, usize)>>,
    places: Seq<(Seq<u8>, usize, usize)>,
    k: int,
) -> Seq<(Seq<u8>, usize, u32, Seq<(String, usize, usize, Option<Seq<u8>>)>, bool)>
    decreases k,
{
    if k <= 0 {
        seq![]
    } else {
        let (label, base, size) = places[k - 1];
        hunt_over(m, keys, places, k - 1) + hunt_from(m, keys, label, base as int, 0, words_in(size as int))
    }
}

fn gimmick_refs_of(hits: &Vec<(String, usize, usize)>) -> (r: Vec<(String, usize, usize)>)
    ensures
        r@ == gimmick_refs(hits@),
{
    let mut out: Vec<(String, usize, usize)> = Vec::new();
    let mut j: usize = 0;
    while j < hits.len()
        invariant
            0 <= j <= hits@.len(),
            out@ == gimmick_refs(hits@.take(j as int)),
        decreases hits@.len() - j,
    {
        proof {
            assert(hits@.take(j + 1).drop_last() =~= hits@.take(j as int));
            assert(hits@.take(j + 1).last() == hits@[j as int]);
        }
        if crate::strings::str_eq(hits[j].0.as_str(), "GimmickInfoManager") {
            out.push((hits[j].0.clone(), hits[j].1, hits[j].2));
        }
        j = j + 1;
    }
    assert(hits@.take(hits@.len() as int) =~= hits@);
    out
}

fn hunt_in(
    mem: &Memory,
    keys: &HashMap<u32, Vec<(String, usize, usize)>>,
    label: &String,
    base: usize,
    size: usize,
    out: &mut Vec<HuntHit>,
)
    ensures
        hunt_hits_view(final(out)@) == hunt_hits_view(old(out)@) + hunt_from(
            mem@,
            keys_view(keys@),
            encode_utf8(label@),
            base as int,
            0,
            words_in(size as int),
        ),
{
    let n = size / 4 + if size % 4 == 0 { 0 } else { 1 };
    let ghost lab = encode_utf8(label@);
    let ghost start = hunt_hits_view(out@);
    let mut i: usize = 0;
    while i < n
        invariant
            0 <= i <= n,
            n == words_in(size as int),
            4 * n <= size + 3,
            lab == encode_utf8(label@),
            start == hunt_hits_view(old(out)@),
            start + hunt_from(mem@, keys_view(keys@), lab, base as int, 0, n as int) == hunt_hits_view(out@)
                + hunt_from(mem@, keys_view(keys@), lab, base as int, i as int, n as int),
        decreases n - i,
    {
        let ghost rest = hunt_from(mem@, keys_view(keys@), lab, base as int, i + 1, n as int);
        let v = match mem.u32_at(base, 4 * i) {
            Some(v) => v,
            None => {
                proof {
                    let o = hunt_hits_view(out@);
                    assert(hunt_from(mem@, keys_view(keys@), lab, base as int, i as int, n as int)
                        =~= Seq::<(Seq<u8>, usize, u32, Seq<(String, usize, usize, Option<Seq<u8>>)>, bool)>::empty());
                    assert(o + Seq::<(Seq<u8>, usize, u32, Seq<(String, usize, usize, Option<Seq<u8>>)>, bool)>::empty() =~= o);
                }
                return;
            },
        };
        let gims = match keys.get(&v) {
            Some(hits) => {
                proof {
                    assert(keys_view(keys@)[v] == hits@);
                }
                gimmick_refs_of(hits)
            },
            None => Vec::new(),
        };
        if gims.len() > 0 {
            let h = HuntHit { label: label.clone(), off: 4 * i, value: v, refs: key_refs(mem, &gims, 2), collect_range: false };
            proof {
                let o = hunt_hits_view(out@);
                assert(hunt_hits_view(out@.push(h)) =~= o.push(hunt_hit_v(h)));
                assert(o + (seq![hunt_hit_v(h)] + rest) =~= o.push(hunt_hit_v(h)) + rest);
            }
            out.push(h);
        } else if 17_000_000 <= v && v < 17_999_999 {
            let h = HuntHit { label: label.clone(), off: 4 * i, value: v, refs: Vec::new(), collect_range: true };
            proof {
                let o = hunt_hits_view(out@);
                assert(h.refs@.map_values(|r: KeyRef| key_ref_v(r)) =~= Seq::<(String, usize, usize, Option<Seq<u8>>)>::empty());
                assert(hunt_hits_view(out@.push(h)) =~= o.push(hunt_hit_v(h)));
                assert(o + (seq![hunt_hit_v(h)] + rest) =~= o.push(hunt_hit_v(h)) + rest);
            }
            out.push(h);
        }
        i = i + 1;
    }
    proof {
        let o = hunt_hits_view(out@);
        assert(o + Seq::<(Seq<u8>, usize, u32, Seq<(String, usize, usize, Option<Seq<u8>>)>, bool)>::empty() =~= o);
    }
}

/// How far `hunt_keys` looks: `0x800` of the actor, `0x1000` of its
/// sub-object and of every component, and `0x200` behind a gimmick
/// component's `+0xC0`, `+0xE0`, `+0x420`, `+0x428`, `+0x5A8`, and behind
/// `+0xE0 -> [1]`.
pub open spec fn hunt_rule() -> (usize, usize, usize, usize, Seq<usize>, usize, bool) {
    (0x800, 0x1000, 0x1000, 0x1000, seq![0xC0usize, 0xE0, 0x420, 0x428, 0x5A8], 0x200, true)
}

fn hunt_places() -> (r: PlaceRule)
    ensures
        place_rule_v(r) == hunt_rule(),
{
    let mut sides: Vec<usize> = Vec::new();
    sides.push(0xC0);
    sides.push(0xE0);
    sides.push(0x420);
    sides.push(0x428);
    sides.push(0x5A8);
    assert(sides@ =~= seq![0xC0usize, 0xE0, 0x420, 0x428, 0x5A8]);
    PlaceRule { actor: 0x800, sub: 0x1000, gimmick: 0x1000, other: 0x1000, sides, side_size: 0x200, type_object: true }
}

/// Hunt for gimmick record keys anywhere in a node's objects, and for words
/// in the collect families' key range that are no record's key.
pub fn hunt_keys(mem: &Memory, md: &MainModule, actor: usize, keys: &HashMap<u32, Vec<(String, usize, usize)>>) -> (r: Vec<HuntHit>)
    ensures
        hunt_hits_view(r@) == hunt_over(
            mem@,
            keys_view(keys@),
            node_places_spec(mem@, *md, actor as int, hunt_rule()),
            node_places_spec(mem@, *md, actor as int, hunt_rule()).len() as int,
        ),
{
    let rule = hunt_places();
    let places = node_places(mem, md, actor, &rule);
    let mut out: Vec<HuntHit> = Vec::new();
    assert(hunt_hits_view(out@) =~= Seq::<(Seq<u8>, usize, u32, Seq<(String, usize, usize, Option<Seq<u8>>)>, bool)>::empty());
    let mut k: usize = 0;
    while k < places.len()
        invariant
            0 <= k <= places@.len(),
            hunt_hits_view(out@) == hunt_over(mem@, keys_view(keys@), places_spec_view(places@), k as int),
        decreases places@.len() - k,
    {
        hunt_in(mem, keys, &places[k].0, places[k].1, places[k].2, &mut out);
        k = k + 1;
    }
    out
}

/// How many ASCII letters `s` holds.
pub open spec fn alpha_count(s: Seq<u8>) -> nat
    decreases s.len(),
{
    if s.len() == 0 {
        0
    } else {
        alpha_count(s.drop_last()) + if is_alpha(s.last()) { 1nat } else { 0nat }
    }
}

/// A string reachable one pointer away from a node's place.
pub struct StringHit {
    pub label: String,
    pub off: usize,
    pub text: String,
}

pub open spec fn string_hit_v(h: StringHit) -> (Seq<u8>, usize, Seq<u8>) {
    (encode_utf8(h.label@), h.off, encode_utf8(h.text@))
}

pub open spec fn string_hits_view(v: Seq<StringHit>) -> Seq<(Seq<u8>, usize, Seq<u8>)> {
    v.map_values(|h: StringHit| string_hit_v(h))
}

/// The strings behind fields `0, 8, .. 8 * (k - 1)` of the place at `base`:
/// a pointer outside the module to a C string of six characters or more,
/// four of them letters, read at most 200 bytes far.
pub open spec fn strings_upto(
    m: Seq<SpecRegion>,
    md: MainModule,
    label: Seq<u8>,
    base: int,
    k: int,
) -> Seq<(Seq<u8>, usize, Seq<u8>)>
    decreases k,
{
    if k <= 0 {
        seq![]
    } else {
        let rest = strings_upto(m, md, label, base, k - 1);
        match ptr_at(m, base + 8 * (k - 1)) {
            None => rest,
            Some(p) => if in_module(md, p as int) {
                rest
            } else {
                match cstr_at(m, p as int, 200) {
                    Some(t) => if t.len() >= 6 && alpha_count(t) >= 4 {
                        rest.push((label, (8 * (k - 1)) as usize, t))
                    } else {
                        rest
                    },
                    None => rest,
                }
            },
        }
    }
}

pub open spec fn strings_over(
    m: Seq<SpecRegion>,
    md: MainModule,
    places: Seq<(Seq<u8>, usize, usize)>,
    k: int,
) -> Seq<(Seq<u8>, usize, Seq<u8>)>
    decreases k,
{
    if k <= 0 {
        seq![]
    } else {
        let (label, base, size) = places[k - 1];
        strings_over(m, md, places, k - 1) + strings_upto(m, md, label, base as int, fields_in(size as int))
    }
}

fn letters(s: &str) -> (r: usize)
    ensures
        r == alpha_count(lit(s)),
{
    let b = s.as_bytes();
    let mut n: usize = 0;
    let mut i: usize = 0;
    while i < b.len()
        invariant
            0 <= i <= b@.len(),
            b@ == lit(s),
            n == alpha_count(b@.take(i as int)),
            n <= i,
        decreases b@.len() - i,
    {
        proof {
            assert(b@.take(i + 1).drop_last() =~= b@.take(i as int));
            assert(b@.take(i + 1).last() == b@[i as int]);
        }
        let c = b[i];
        if (0x41 <= c && c <= 0x5A) || (0x61 <= c && c <= 0x7A) {
            n = n + 1;
        }
        i = i + 1;
    }
    assert(b@.take(b@.len() as int) =~= b@);
    n
}

fn strings_in(mem: &Memory, md: &MainModule, label: &String, base: usize, size: usize, out: &mut Vec<StringHit>)
    ensures
        string_hits_view(final(out)@) == string_hits_view(old(out)@) + strings_upto(
            mem@,
            *md,
            encode_utf8(label@),
            base as int,
            fields_in(size as int),
        ),
{
    let n = size / 8 + if size % 8 == 0 { 0 } else { 1 };
    let ghost lab = encode_utf8(label@);
    let ghost start = string_hits_view(out@);
    assert(start + strings_upto(mem@, *md, lab, base as int, 0) =~= start);
    let mut k: usize = 0;
    while k < n
        invariant
            0 <= k <= n,
            n == fields_in(size as int),
            8 * n <= size + 7,
            lab == encode_utf8(label@),
            start == string_hits_view(old(out)@),
            string_hits_view(out@) == start + strings_upto(mem@, *md, lab, base as int, k as int),
        decreases n - k,
    {
        match mem.ptr_at(base, 8 * k) {
            Some(p) => {
                if !md.contains(p) {
                    match mem.read_cstr(p, 200) {
                        Some(t) => {
                            let ts = t.as_str();
                            let len = ts.len();
                            proof {
                                lemma_cstr_ascii(mem@, p as int, 200);
                                assert(ts@ == t@);
                                assert(lit(ts) == encode_utf8(t@));
                            }
                            if len >= 6 && letters(ts) >= 4 {
                                let h = StringHit { label: label.clone(), off: 8 * k, text: t };
                                proof {
                                    assert(string_hits_view(out@.push(h)) =~= string_hits_view(out@).push(string_hit_v(h)));
                                }
                                out.push(h);
                            }
                        },
                        None => {},
                    }
                }
            },
            None => {},
        }
        k = k + 1;
    }
}

/// How far `dump_all_strings` looks: `0x300` of the actor, `0x400` of its
/// sub-object, `0x600` of a gimmick component and `0x300` of another.
pub open spec fn strings_rule() -> (usize, usize, usize, usize, Seq<usize>, usize, bool) {
    (0x300, 0x400, 0x600, 0x300, seq![], 0, false)
}

/// Every string reachable one pointer away from the actor, its sub-object
/// and its components.
pub fn dump_all_strings(mem: &Memory, md: &MainModule, actor: usize) -> (r: Vec<StringHit>)
    ensures
        string_hits_view(r@) == strings_over(
            mem@,
            *md,
            node_places_spec(mem@, *md, actor as int, strings_rule()),
            node_places_spec(mem@, *md, actor as int, strings_rule()).len() as int,
        ),
{
    let rule = PlaceRule { actor: 0x300, sub: 0x400, gimmick: 0x600, other: 0x300, sides: Vec::new(), side_size: 0, type_object: false };
    assert(place_rule_v(rule) =~= strings_rule());
    let places = node_places(mem, md, actor, &rule);
    let mut out: Vec<StringHit> = Vec::new();
    assert(string_hits_view(out@) =~= Seq::<(Seq<u8>, usize, Seq<u8>)>::empty());
    let mut k: usize = 0;
    while k < places.len()
        invariant
            0 <= k <= places@.len(),
            string_hits_view(out@) == strings_over(mem@, *md, places_spec_view(places@), k as int),
        decreases places@.len() - k,
    {
        strings_in(mem, md, &places[k].0, places[k].1, places[k].2, &mut out);
        k = k + 1;
    }
    out
}

// ---------------------------------------------------------------------------
// The manager, its container and the module's globals
// ---------------------------------------------------------------------------

/// The actor manager as the dumps take it: re-read through its slot when a
/// whole one is there, else the one found at start.
pub open spec fn current_manager(m: Seq<SpecRegion>, w: World) -> usize {
    match ptr_at(m, w.manager_slot as int) {
        Some(p) if readable(m, p as int, MANAGER_SIZE as int) => p,
        _ => w.manager,
    }
}

pub struct ContainerDump {
    pub ptr: usize,
    /// Its short class name, `?` when none.
    pub class: String,
    pub fields: Vec<(usize, usize, String)>,
}

/// The manager's fields that point at classed objects, the container's,
/// and every classed object the module's data sections point at.
pub struct CensusDump {
    pub manager: usize,
    pub manager_fields: Vec<(usize, usize, String)>,
    pub container: Option<ContainerDump>,
    pub globals: Vec<(usize, usize, String)>,
}

/// A one-off structural dump: what the manager and its container point at,
/// and every global object the module knows by class.
pub fn census(mem: &Memory, md: &MainModule, w: &World, sections: &[DataSection]) -> (r: CensusDump)
    ensures
        r.manager == current_manager(mem@, *w),
        fields_view(r.manager_fields@) == fields_upto(mem@, *md, r.manager as int, steps(MANAGER_SIZE as int)),
        match ptr_at(mem@, r.manager + CONTAINER_OFF) {
            None => r.container is None,
            Some(c) => r.container matches Some(d) && d.ptr == c && encode_utf8(d.class@) == class_or_q(mem@, *md, c as int)
                && fields_view(d.fields@) == fields_upto(mem@, *md, c as int, steps(CONTAINER_SCAN as int)),
        },
        fields_view(r.globals@) == census_upto(mem@, *md, sections@, sections@.len() as int),
{
    let manager = match find_manager_current(mem, w) {
        Some(p) => p,
        None => w.manager,
    };
    let manager_fields = object_fields(mem, md, manager, MANAGER_SIZE);
    let container = match mem.ptr_at(manager, CONTAINER_OFF) {
        Some(c) => {
            let class = match class_name(mem, md, c) {
                Some(n) => n,
                None => {
                    let mut q: Vec<u8> = Vec::new();
                    q.push(0x3F);
                    proof {
                        lemma_ascii_encode(q@);
                    }
                    ascii_string(q)
                },
            };
            Some(ContainerDump { ptr: c, class, fields: object_fields(mem, md, c, CONTAINER_SCAN) })
        },
        None => None,
    };
    CensusDump { manager, manager_fields, container, globals: global_object_census(mem, md, sections) }
}

/// A word of a map dump and what it points at: when it points at `0x100`
/// readable bytes above `0x10000`, the entity id and short class found there.
pub struct MapCell {
    pub value: u64,
    pub readable: bool,
    pub eid: Option<u32>,
    pub class: Option<String>,
}

pub open spec fn cell_v(c: MapCell) -> (u64, bool, Option<u32>, Option<Seq<u8>>) {
    (c.value, c.readable, c.eid, opt_text(c.class))
}

pub open spec fn cell_spec(m: Seq<SpecRegion>, md: MainModule, v: u64) -> (u64, bool, Option<u32>, Option<Seq<u8>>) {
    if v >= 0x10000 && readable(m, v as int, 0x100) {
        (v, true, eid_of(m, v as int), opt_class(m, md, v as int))
    } else {
        (v, false, None, None)
    }
}

/// The six words behind `p`, when `p` is above `0x10000` and they read.
pub open spec fn row_spec(m: Seq<SpecRegion>, md: MainModule, p: u64) -> Option<Seq<(u64, bool, Option<u32>, Option<Seq<u8>>)>> {
    if p < 0x10000 || !readable(m, p as int, 48) {
        None
    } else {
        Some(Seq::new(6, |i: int| cell_spec(m, md, match u64_at(m, p + 8 * i) { Some(v) => v, None => 0 })))
    }
}

/// A `{ptr p0; u32 a; u32 b; ptr p2; ptr p3}` structure and the words
/// behind `p0` and `p2`.
pub struct MapDump {
    pub p0: u64,
    pub a: u32,
    pub b: u32,
    pub p2: u64,
    pub p3: u64,
    pub row0: Option<Vec<MapCell>>,
    pub row2: Option<Vec<MapCell>>,
}

pub open spec fn row_v(r: Option<Vec<MapCell>>) -> Option<Seq<(u64, bool, Option<u32>, Option<Seq<u8>>)>> {
    match r {
        Some(v) => Some(v@.map_values(|c: MapCell| cell_v(c))),
        None => None,
    }
}

pub open spec fn or_zero(w: Option<u64>) -> u64 {
    match w {
        Some(v) => v,
        None => 0,
    }
}

pub open spec fn map_spec(m: Seq<SpecRegion>, md: MainModule, base: int) -> Option<(u64, u32, u32, u64, u64, Option<Seq<(u64, bool, Option<u32>, Option<Seq<u8>>)>>, Option<Seq<(u64, bool, Option<u32>, Option<Seq<u8>>)>>)> {
    match (u64_at(m, base), u32_at(m, base + 8), u32_at(m, base + 0xC)) {
        (Some(p0), Some(a), Some(b)) => {
            let p2 = or_zero(u64_at(m, base + 0x10));
            Some((p0, a, b, p2, or_zero(u64_at(m, base + 0x18)), row_spec(m, md, p0), row_spec(m, md, p2)))
        },
        _ => None,
    }
}

pub open spec fn map_v(d: MapDump) -> (u64, u32, u32, u64, u64, Option<Seq<(u64, bool, Option<u32>, Option<Seq<u8>>)>>, Option<Seq<(u64, bool, Option<u32>, Option<Seq<u8>>)>>) {
    (d.p0, d.a, d.b, d.p2, d.p3, row_v(d.row0), row_v(d.row2))
}

fn map_cell(mem: &Memory, md: &MainModule, v: u64) -> (r: MapCell)
    ensures
        cell_v(r) == cell_spec(mem@, *md, v),
{
    if v >= 0x10000 && v <= usize::MAX as u64 && mem.readable(v as usize, 0x100) {
        let q = v as usize;
        MapCell { value: v, readable: true, eid: actor_eid(mem, q), class: class_name(mem, md, q) }
    } else {
        proof {
            if v >= 0x10000 && v > usize::MAX {
                assert(byte_at(mem@, v + 0) is None);
            }
        }
        MapCell { value: v, readable: false, eid: None, class: None }
    }
}

fn map_row(mem: &Memory, md: &MainModule, p: u64) -> (r: Option<Vec<MapCell>>)
    ensures
        row_v(r) == row_spec(mem@, *md, p),
{
    if p < 0x10000 || p > usize::MAX as u64 {
        proof {
            if p >= 0x10000 {
                assert(byte_at(mem@, p + 0) is None);
            }
        }
        return None;
    }
    let p = p as usize;
    if !mem.readable(p, 48) {
        return None;
    }
    let mut cells: Vec<MapCell> = Vec::new();
    let mut i: usize = 0;
    while i < 6
        invariant
            0 <= i <= 6,
            cells@.len() == i,
            cells@.map_values(|c: MapCell| cell_v(c)) == Seq::new(i as nat, |j: int| cell_spec(mem@, *md, or_zero(u64_at(mem@, p + 8 * j)))),
        decreases 6 - i,
    {
        let v = match mem.word(p, i) {
            Some(v) => v,
            None => 0,
        };
        let c = map_cell(mem, md, v);
        proof {
            let want = Seq::new((i + 1) as nat, |j: int| cell_spec(mem@, *md, or_zero(u64_at(mem@, p + 8 * j))));
            let got = cells@.push(c).map_values(|c: MapCell| cell_v(c));
            assert forall|j: int| 0 <= j < i + 1 implies #[trigger] got[j] == want[j] by {
                if j < i {
                    assert(cells@.push(c)[j] == cells@[j]);
                    assert(got[j] == cell_v(cells@[j]));
                    assert(cells@.map_values(|c: MapCell| cell_v(c))[j] == cell_v(cells@[j]));
                } else {
                    assert(cells@.push(c)[j] == c);
                    assert(got[j] == cell_v(c));
                    assert(v == or_zero(u64_at(mem@, p + 8 * j)));
                }
            }
            assert(got =~= want);
        }
        cells.push(c);
        i = i + 1;
    }
    proof {
        assert(Seq::new(6, |j: int| cell_spec(mem@, *md, or_zero(u64_at(mem@, p + 8 * j))))
            =~= Seq::new(6, |i: int| cell_spec(mem@, *md, match u64_at(mem@, p + 8 * i) { Some(v) => v, None => 0 })));
    }
    Some(cells)
}

/// The map-shaped structure at `base + off`.
#[verifier::spinoff_prover]
#[verifier::rlimit(40)]
pub fn dump_map(mem: &Memory, md: &MainModule, base: usize, off: usize) -> (r: Option<MapDump>)
    ensures
        match map_spec(mem@, *md, base + off) {
            Some(v) => r matches Some(d) && map_v(d) == v,
            None => r is None,
        },
{
    let (p0, a, b) = match (mem.u64_at(base, off), off.checked_add(8), off.checked_add(0xC)) {
        (Some(p0), Some(o8), Some(oc)) => match (mem.u32_at(base, o8), mem.u32_at(base, oc)) {
            (Some(a), Some(b)) => (p0, a, b),
            _ => return None,
        },
        _ => {
            proof {
                if u64_at(mem@, base + off) is Some {
                    assert(byte_at(mem@, base + off + 7) is Some);
                }
            }
            return None;
        },
    };
    proof {
        assert(byte_at(mem@, base + off + 0xF) is Some);
    }
    let p2 = match off.checked_add(0x10) {
        Some(o) => match mem.u64_at(base, o) {
            Some(v) => v,
            None => 0,
        },
        None => {
            proof {
                assert(byte_at(mem@, base + off + 0x10 + 0) is None);
            }
            0
        },
    };
    let p3 = match off.checked_add(0x18) {
        Some(o) => match mem.u64_at(base, o) {
            Some(v) => v,
            None => 0,
        },
        None => {
            proof {
                assert(byte_at(mem@, base + off + 0x18 + 0) is None);
            }
            0
        },
    };
    Some(MapDump { p0, a, b, p2, p3, row0: map_row(mem, md, p0), row2: map_row(mem, md, p2) })
}

/// A map-shaped structure and where it was found.
pub struct LabeledMap {
    pub label: String,
    pub map: MapDump,
}

pub open spec fn labeled_v(x: LabeledMap) -> (Seq<u8>, (u64, u32, u32, u64, u64, Option<Seq<(u64, bool, Option<u32>, Option<Seq<u8>>)>>, Option<Seq<(u64, bool, Option<u32>, Option<Seq<u8>>)>>)) {
    (encode_utf8(x.label@), map_v(x.map))
}

pub open spec fn labeled_view(v: Seq<LabeledMap>) -> Seq<(Seq<u8>, (u64, u32, u32, u64, u64, Option<Seq<(u64, bool, Option<u32>, Option<Seq<u8>>)>>, Option<Seq<(u64, bool, Option<u32>, Option<Seq<u8>>)>>))> {
    v.map_values(|x: LabeledMap| labeled_v(x))
}

/// The maps at `base + offs[0..k]` that read, labelled `prefix` and the
/// offset in hex.
pub open spec fn maps_over(
    m: Seq<SpecRegion>,
    md: MainModule,
    prefix: Seq<u8>,
    base: int,
    offs: Seq<usize>,
    k: int,
) -> Seq<(Seq<u8>, (u64, u32, u32, u64, u64, Option<Seq<(u64, bool, Option<u32>, Option<Seq<u8>>)>>, Option<Seq<(u64, bool, Option<u32>, Option<Seq<u8>>)>>))>
    decreases k,
{
    if k <= 0 {
        seq![]
    } else {
        let rest = maps_over(m, md, prefix, base, offs, k - 1);
        match map_spec(m, md, base + offs[k - 1]) {
            Some(v) => rest.push((prefix + hex_upper(offs[k - 1] as nat), v)),
            None => rest,
        }
    }
}

/// The container's map slots from `+0x88`, every `0x20` bytes while a whole
/// one fits in the `0x800` scanned.
pub open spec fn ctr_offsets() -> Seq<usize> {
    Seq::new(59, |j: int| (0x88 + 0x20 * j) as usize)
}

pub open spec fn mgr_offsets() -> Seq<usize> {
    seq![0x128usize, 0x130, 0x138, 0x140, 0x148, 0x150, 0x158, 0x180, 0x190, 0x438]
}

/// Every map-shaped structure of the container (`+0x08`, then the slots)
/// and of the manager that reads.
pub open spec fn maps_spec(m: Seq<SpecRegion>, md: MainModule, w: World) -> Seq<(Seq<u8>, (u64, u32, u32, u64, u64, Option<Seq<(u64, bool, Option<u32>, Option<Seq<u8>>)>>, Option<Seq<(u64, bool, Option<u32>, Option<Seq<u8>>)>>))> {
    let mgr = current_manager(m, w);
    let ctr = match ptr_at(m, mgr + CONTAINER_OFF) {
        None => seq![],
        Some(c) => {
            let first = match map_spec(m, md, c + 0x08) {
                Some(v) => seq![(lit("ctr+0x08"), v)],
                None => seq![],
            };
            first + maps_over(m, md, lit("ctr+0x"), c as int, ctr_offsets(), 59)
        },
    };
    ctr + maps_over(m, md, lit("mgr+0x"), mgr as int, mgr_offsets(), 10)
}

fn maps_at(mem: &Memory, md: &MainModule, prefix: &str, base: usize, offs: &Vec<usize>, out: &mut Vec<LabeledMap>)
    ensures
        labeled_view(final(out)@) == labeled_view(old(out)@) + maps_over(mem@, *md, lit(prefix), base as int, offs@, offs@.len() as int),
{
    let ghost start = labeled_view(out@);
    assert(start + maps_over(mem@, *md, lit(prefix), base as int, offs@, 0) =~= start);
    let mut k: usize = 0;
    while k < offs.len()
        invariant
            0 <= k <= offs@.len(),
            start == labeled_view(old(out)@),
            labeled_view(out@) == start + maps_over(mem@, *md, lit(prefix), base as int, offs@, k as int),
        decreases offs@.len() - k,
    {
        let off = offs[k];
        match dump_map(mem, md, base, off) {
            Some(map) => {
                let mut t: Vec<u8> = Vec::new();
                crate::strings::push_text(&mut t, prefix);
                let ghost before = t@;
                push_hex_upper(&mut t, off as u64);
                proof {
                    lemma_hex_upper_ascii(off as nat);
                    crate::utf8_cuts::lemma_ascii_valid(hex_upper(off as nat));
                    vstd::utf8::valid_utf8_concat(before, hex_upper(off as nat));
                }
                let x = LabeledMap { label: crate::strings::text_string(t), map };
                proof {
                    assert(labeled_view(out@.push(x)) =~= labeled_view(out@).push(labeled_v(x)));
                }
                out.push(x);
            },
            None => {},
        }
        k = k + 1;
    }
}

/// A raw structural dump of the container's and the manager's map and list
/// structures.
pub fn dump_maps(mem: &Memory, md: &MainModule, w: &World) -> (r: Vec<LabeledMap>)
    ensures
        labeled_view(r@) == maps_spec(mem@, *md, *w),
{
    let manager = match find_manager_current(mem, w) {
        Some(p) => p,
        None => w.manager,
    };
    let mut out: Vec<LabeledMap> = Vec::new();
    assert(labeled_view(out@) =~= Seq::<(Seq<u8>, (u64, u32, u32, u64, u64, Option<Seq<(u64, bool, Option<u32>, Option<Seq<u8>>)>>, Option<Seq<(u64, bool, Option<u32>, Option<Seq<u8>>)>>))>::empty());
    match mem.ptr_at(manager, CONTAINER_OFF) {
        Some(c) => {
            match dump_map(mem, md, c, 0x08) {
                Some(map) => {
                    let x = LabeledMap { label: String::from_str("ctr+0x08"), map };
                    proof {
                        assert(labeled_view(out@.push(x)) =~= labeled_view(out@).push(labeled_v(x)));
                    }
                    out.push(x);
                },
                None => {},
            }
            let mut offs: Vec<usize> = Vec::new();
            let mut j: usize = 0;
            while j < 59
                invariant
                    0 <= j <= 59,
                    offs@ == Seq::new(j as nat, |i: int| (0x88 + 0x20 * i) as usize),
                decreases 59 - j,
            {
                offs.push(0x88 + 0x20 * j);
                j = j + 1;
                assert(offs@ =~= Seq::new(j as nat, |i: int| (0x88 + 0x20 * i) as usize));
            }
            maps_at(mem, md, "ctr+0x", c, &offs, &mut out);
        },
        None => {},
    }
    let mut offs: Vec<usize> = Vec::new();
    offs.push(0x128);
    offs.push(0x130);
    offs.push(0x138);
    offs.push(0x140);
    offs.push(0x148);
    offs.push(0x150);
    offs.push(0x158);
    offs.push(0x180);
    offs.push(0x190);
    offs.push(0x438);
    assert(offs@ =~= mgr_offsets());
    maps_at(mem, md, "mgr+0x", manager, &offs, &mut out);
    out
}

} // verus!

verus! {

// ---------------------------------------------------------------------------
// Raw item records of a few stacks
// ---------------------------------------------------------------------------

/// Where a stack picked for the item-record dump sits: the bag, or another
/// inventory tab by its id.
#[derive(Debug, Clone, Copy, PartialEq, Eq, Structural)]
pub enum PickFrom {
    Bag,
    Tab(i16),
}

/// The first `min(n, len)` slots, each tagged with where it came from.
pub open spec fn tagged(from: PickFrom, s: Seq<InventorySlot>, n: int) -> Seq<(PickFrom, InventorySlot)> {
    let k = if s.len() < n { s.len() as int } else { n };
    Seq::new(k as nat, |i: int| (from, s[i]))
}

/// Two stacks of each of the first three tabs from `j` on that are not the
/// bag (`id` 1) and hold something; a tab whose slots do not read still
/// counts as one of the three.
pub open spec fn tab_picks(m: Seq<SpecRegion>, tabs: Seq<InventoryTab>, j: int, taken: int) -> Seq<(PickFrom, InventorySlot)>
    decreases tabs.len() - j,
{
    if j < 0 || j >= tabs.len() || taken >= 3 {
        seq![]
    } else {
        let t = tabs[j];
        if t.id != 1 && t.used > 0 {
            let here = match tab_slots_spec(m, t) {
                Some(s) => tagged(PickFrom::Tab(t.id), s, 2),
                None => seq![],
            };
            here + tab_picks(m, tabs, j + 1, taken + 1)
        } else {
            tab_picks(m, tabs, j + 1, taken)
        }
    }
}

/// The stacks the dump looks at: four of the bag, then those of the tabs.
pub open spec fn item_picks(m: Seq<SpecRegion>, tabs: Seq<InventoryTab>, bag: Seq<InventorySlot>) -> Seq<(PickFrom, InventorySlot)> {
    tagged(PickFrom::Bag, bag, 4) + tab_picks(m, tabs, 0, 0)
}

/// Lines of 32 bytes of an item record that the dump shows.
pub const ITEM_RECORD_LINES: usize = 36;

/// One item record dumped: the stack it was reached from, the record, its
/// name and its first `ITEM_RECORD_LINES * 32` bytes.
pub struct ItemRecordDump {
    pub from: PickFrom,
    pub slot: InventorySlot,
    pub rec: usize,
    pub name: Option<String>,
    pub lines: Vec<String>,
}

pub open spec fn item_dump_v(d: ItemRecordDump) -> (PickFrom, InventorySlot, usize, Option<Seq<u8>>, Seq<Seq<u8>>) {
    (d.from, d.slot, d.rec, match d.name {
        Some(s) => Some(encode_utf8(s@)),
        None => None,
    }, texts_view(d.lines@))
}

pub open spec fn item_dumps_view(v: Seq<ItemRecordDump>) -> Seq<(PickFrom, InventorySlot, usize, Option<Seq<u8>>, Seq<Seq<u8>>)> {
    v.map_values(|d: ItemRecordDump| item_dump_v(d))
}

/// The dumps of picks `0..k`: each pick whose item record is found.
pub open spec fn item_dumps_upto(
    m: Seq<SpecRegion>,
    md: MainModule,
    slots: TableSlots,
    picks: Seq<(PickFrom, InventorySlot)>,
    k: int,
) -> Seq<(PickFrom, InventorySlot, usize, Option<Seq<u8>>, Seq<Seq<u8>>)>
    decreases k,
{
    if k <= 0 {
        seq![]
    } else {
        let prev = item_dumps_upto(m, md, slots, picks, k - 1);
        let (from, sl) = picks[k - 1];
        match record_spec(m, md, slots.item, sl.item_index as int) {
            None => prev,
            Some(rec) => prev.push((from, sl, rec, name_behind(m, rec as int, 0x08), hex_lines_spec(m, rec as int, ITEM_RECORD_LINES as int))),
        }
    }
}

fn push_tagged(out: &mut Vec<(PickFrom, InventorySlot)>, from: PickFrom, s: &[InventorySlot], n: usize)
    ensures
        final(out)@ == old(out)@ + tagged(from, s@, n as int),
{
    let ghost start = out@;
    let k = if s.len() < n { s.len() } else { n };
    let mut i: usize = 0;
    while i < k
        invariant
            0 <= i <= k,
            k <= s@.len(),
            k as int == (if s@.len() < n { s@.len() as int } else { n as int }),
            out@ == start + Seq::new(i as nat, |x: int| (from, s@[x])),
        decreases k - i,
    {
        out.push((from, s[i]));
        proof {
            assert(out@ =~= start + Seq::new((i + 1) as nat, |x: int| (from, s@[x])));
        }
        i = i + 1;
    }
}

/// Raw item records for a few bag stacks and a few stacks of the other
/// tabs, to compare a material's record with a piece of gear's.
pub fn dump_item_records(mem: &Memory, md: &MainModule, slots: &TableSlots, tabs: &[InventoryTab], bag: &[InventorySlot]) -> (r: Vec<ItemRecordDump>)
    ensures
        item_dumps_view(r@) == item_dumps_upto(mem@, *md, *slots, item_picks(mem@, tabs@, bag@), item_picks(mem@, tabs@, bag@).len() as int),
{
    let mut picks: Vec<(PickFrom, InventorySlot)> = Vec::new();
    push_tagged(&mut picks, PickFrom::Bag, bag, 4);
    let ghost head = picks@;
    let mut j: usize = 0;
    let mut taken: usize = 0;
    while j < tabs.len() && taken < 3
        invariant
            0 <= j <= tabs@.len(),
            taken <= 3,
            picks@ + tab_picks(mem@, tabs@, j as int, taken as int) == head + tab_picks(mem@, tabs@, 0, 0),
        decreases tabs@.len() - j,
    {
        let t = tabs[j];
        if t.id != 1 && t.used > 0 {
            let ghost before = picks@;
            match tab_slots(mem, &t) {
                Some(s) => push_tagged(&mut picks, PickFrom::Tab(t.id), s.as_slice(), 2),
                None => {},
            }
            proof {
                assert(before + tab_picks(mem@, tabs@, j as int, taken as int)
                    =~= picks@ + tab_picks(mem@, tabs@, j + 1, taken + 1));
            }
            taken = taken + 1;
        }
        j = j + 1;
    }
    proof {
        assert(picks@ + Seq::<(PickFrom, InventorySlot)>::empty() =~= picks@);
        assert(picks@ == item_picks(mem@, tabs@, bag@));
    }
    let mut out: Vec<ItemRecordDump> = Vec::new();
    let mut k: usize = 0;
    while k < picks.len()
        invariant
            0 <= k <= picks@.len(),
            picks@ == item_picks(mem@, tabs@, bag@),
            item_dumps_view(out@) == item_dumps_upto(mem@, *md, *slots, picks@, k as int),
        decreases picks@.len() - k,
    {
        let (from, sl) = picks[k];
        if let Some(rec) = item_record(mem, md, slots, sl.item_index) {
            let d = ItemRecordDump { from, slot: sl, rec, name: item_record_name(mem, rec), lines: hex_lines(mem, rec, ITEM_RECORD_LINES) };
            let ghost before = out@;
            out.push(d);
            proof {
                assert(item_dumps_view(out@) =~= item_dumps_view(before).push(item_dump_v(d)));
            }
        }
        k = k + 1;
    }
    out
}

} // verus!

verus! {

// ---------------------------------------------------------------------------
// The server-side actor manager
// ---------------------------------------------------------------------------

/// What a pointer field of a server actor leads to: a C string of at least
/// four characters, a classed object (its short class name), or both.
pub struct ServerLink {
    pub off: usize,
    pub text: Option<String>,
    pub class: Option<String>,
}

pub open spec fn opt_bytes(s: Option<String>) -> Option<Seq<u8>> {
    match s {
        Some(t) => Some(encode_utf8(t@)),
        None => None,
    }
}

pub open spec fn server_link_v(l: ServerLink) -> (usize, Option<Seq<u8>>, Option<Seq<u8>>) {
    (l.off, opt_bytes(l.text), opt_bytes(l.class))
}

pub open spec fn server_links_view(v: Seq<ServerLink>) -> Seq<(usize, Option<Seq<u8>>, Option<Seq<u8>>)> {
    v.map_values(|l: ServerLink| server_link_v(l))
}

/// The link at `a + off`, when the pointer there reads and leads to a string
/// or a classed object.
pub open spec fn server_link(m: Seq<SpecRegion>, md: MainModule, a: int, off: int) -> Option<(usize, Option<Seq<u8>>, Option<Seq<u8>>)> {
    match ptr_at(m, a + off) {
        None => None,
        Some(p) => {
            let text = match cstr_at(m, p as int, 48) {
                Some(t) => if t.len() >= 4 { Some(t) } else { None },
                None => None,
            };
            let class = match rtti_name_spec(m, md, p as int) {
                Some(n) => Some(short_name_spec(n)),
                None => None,
            };
            if text is None && class is None {
                None
            } else {
                Some((off as usize, text, class))
            }
        },
    }
}

/// The links of the first `k` pointer fields of the actor at `a`.
pub open spec fn server_links_upto(m: Seq<SpecRegion>, md: MainModule, a: int, k: int) -> Seq<(usize, Option<Seq<u8>>, Option<Seq<u8>>)>
    decreases k,
{
    if k <= 0 {
        seq![]
    } else {
        let prev = server_links_upto(m, md, a, k - 1);
        match server_link(m, md, a, 8 * (k - 1)) {
            Some(l) => prev.push(l),
            None => prev,
        }
    }
}

/// Pointer fields of a server actor that the dump follows: its first 0x200
/// bytes.
pub const SERVER_ACTOR_FIELDS: usize = 64;

/// Words of a server actor that the dump prints.
pub const SERVER_ACTOR_WORDS: usize = 12;

/// The components of an actor by their short class names.
pub open spec fn short_comps(c: Seq<(usize, Seq<u8>)>) -> Seq<(usize, Seq<u8>)> {
    c.map_values(|p: (usize, Seq<u8>)| (p.0, short_name_spec(p.1)))
}

/// The server actor holding the wanted entity id.
pub struct ServerActor {
    pub actor: usize,
    pub class: Option<String>,
    pub words: String,
    pub comps: Vec<(usize, String)>,
    pub links: Vec<ServerLink>,
}

pub open spec fn server_actor_v(s: ServerActor) -> (usize, Option<Seq<u8>>, Seq<u8>, Seq<(usize, Seq<u8>)>, Seq<(usize, Option<Seq<u8>>, Option<Seq<u8>>)>) {
    (s.actor, opt_bytes(s.class), encode_utf8(s.words@), comps_view(s.comps@), server_links_view(s.links@))
}

pub open spec fn server_actor_spec(m: Seq<SpecRegion>, md: MainModule, a: usize) -> (usize, Option<Seq<u8>>, Seq<u8>, Seq<(usize, Seq<u8>)>, Seq<(usize, Option<Seq<u8>>, Option<Seq<u8>>)>) {
    (
        a,
        match rtti_name_spec(m, md, a as int) {
            Some(n) => Some(short_name_spec(n)),
            None => None,
        },
        qwords_upto(m, a as int, SERVER_ACTOR_WORDS as int),
        short_comps(component_names_spec(m, md, a as int)),
        server_links_upto(m, md, a as int, SERVER_ACTOR_FIELDS as int),
    )
}

/// A container of the server manager whose eid map reads: its offset, the
/// map's count, how many entries read, and the actor with the wanted id.
pub struct ServerContainer {
    pub off: usize,
    pub count: u32,
    pub readable: usize,
    pub actor: Option<ServerActor>,
}

pub open spec fn server_container_v(c: ServerContainer) -> (usize, u32, usize, Option<(usize, Option<Seq<u8>>, Seq<u8>, Seq<(usize, Seq<u8>)>, Seq<(usize, Option<Seq<u8>>, Option<Seq<u8>>)>)>) {
    (c.off, c.count, c.readable, match c.actor {
        Some(a) => Some(server_actor_v(a)),
        None => None,
    })
}

/// The actor of the first entry with entity id `eid`, among entries `k..`.
pub open spec fn actor_with_eid(es: Seq<(u32, usize)>, eid: u32, k: int) -> Option<usize>
    decreases es.len() - k,
{
    if k < 0 || k >= es.len() {
        None
    } else if es[k].0 == eid {
        Some(es[k].1)
    } else {
        actor_with_eid(es, eid, k + 1)
    }
}

pub open spec fn server_container_spec(m: Seq<SpecRegion>, md: MainModule, srv: int, coff: usize, eid: u32) -> Option<(usize, u32, usize, Option<(usize, Option<Seq<u8>>, Seq<u8>, Seq<(usize, Seq<u8>)>, Seq<(usize, Option<Seq<u8>>, Option<Seq<u8>>)>)>)> {
    match ptr_at(m, srv + coff) {
        None => None,
        Some(c) => if !readable(m, c as int, 0x100) {
            None
        } else {
            match eid_map_of(m, c as int) {
                None => None,
                Some(map) => {
                    let es = entries_upto(m, map.values as int, map.count as int);
                    Some((coff, map.count, es.len() as usize, match actor_with_eid(es, eid, 0) {
                        Some(a) => Some(server_actor_spec(m, md, a)),
                        None => None,
                    }))
                },
            }
        },
    }
}

/// The offsets of the server manager tried as containers.
pub open spec fn server_container_offs() -> Seq<usize> {
    seq![0x08usize, 0x10, 0x18, 0x20]
}

pub open spec fn server_containers_upto(m: Seq<SpecRegion>, md: MainModule, srv: int, eid: u32, k: int) -> Seq<(usize, u32, usize, Option<(usize, Option<Seq<u8>>, Seq<u8>, Seq<(usize, Seq<u8>)>, Seq<(usize, Option<Seq<u8>>, Option<Seq<u8>>)>)>)>
    decreases k,
{
    if k <= 0 {
        seq![]
    } else {
        let prev = server_containers_upto(m, md, srv, eid, k - 1);
        match server_container_spec(m, md, srv, server_container_offs()[k - 1], eid) {
            Some(c) => prev.push(c),
            None => prev,
        }
    }
}

/// The first census entry whose class is `ServerActorManager`, among the
/// first `k`.
pub open spec fn server_entry(census: Seq<(usize, usize, String)>, k: int) -> Option<int>
    decreases k,
{
    if k <= 0 {
        None
    } else {
        match server_entry(census, k - 1) {
            Some(j) => Some(j),
            None => if census[k - 1].2@ == "ServerActorManager"@ {
                Some(k - 1)
            } else {
                None
            },
        }
    }
}

/// The server manager: where it is, its classed fields, and its containers
/// whose eid map reads.
pub struct ServerSide {
    pub manager: usize,
    pub fields: Vec<(usize, usize, String)>,
    pub containers: Vec<ServerContainer>,
}

fn short_comps_of(mem: &Memory, md: &MainModule, a: usize) -> (r: Vec<(usize, String)>)
    ensures
        comps_view(r@) == short_comps(component_names_spec(mem@, *md, a as int)),
{
    let comps = component_names(mem, md, a);
    let mut out: Vec<(usize, String)> = Vec::new();
    let mut i: usize = 0;
    while i < comps.len()
        invariant
            0 <= i <= comps@.len(),
            comps_view(comps@) == component_names_spec(mem@, *md, a as int),
            out@.len() == i,
            comps_view(out@) == short_comps(comps_view(comps@).take(i as int)),
        decreases comps@.len() - i,
    {
        let cs = comps[i].1.as_str();
        let s = short_name(cs);
        let e = (comps[i].0, s);
        proof {
            let cv = comps_view(comps@);
            assert(cs@ == comps@[i as int].1@);
            assert(lit(cs) == encode_utf8(comps@[i as int].1@));
            assert(cv[i as int] == (comps@[i as int].0, encode_utf8(comps@[i as int].1@)));
            let nv = comps_view(out@.push(e));
            let want = short_comps(cv.take(i + 1));
            assert(nv.len() == want.len());
            assert forall|x: int| 0 <= x < i + 1 implies nv[x] == want[x] by {
                if x < i {
                    assert(out@.push(e)[x] == out@[x]);
                    assert(comps_view(out@)[x] == nv[x]);
                    assert(short_comps(cv.take(i as int))[x] == want[x]);
                } else {
                    assert(out@.push(e)[x] == e);
                }
            }
            assert(nv =~= want);
        }
        out.push(e);
        i = i + 1;
    }
    proof {
        assert(comps_view(comps@).take(comps@.len() as int) =~= comps_view(comps@));
    }
    out
}

fn server_links(mem: &Memory, md: &MainModule, a: usize) -> (r: Vec<ServerLink>)
    ensures
        server_links_view(r@) == server_links_upto(mem@, *md, a as int, SERVER_ACTOR_FIELDS as int),
{
    let mut out: Vec<ServerLink> = Vec::new();
    let mut k: usize = 0;
    while k < SERVER_ACTOR_FIELDS
        invariant
            0 <= k <= SERVER_ACTOR_FIELDS,
            server_links_view(out@) == server_links_upto(mem@, *md, a as int, k as int),
        decreases SERVER_ACTOR_FIELDS - k,
    {
        if let Some(p) = mem.ptr_at(a, 8 * k) {
            let text = match mem.read_cstr(p, 48) {
                Some(t) => {
                    let ts = t.as_str();
                    let len = ts.len();
                    proof {
                        lemma_cstr_ascii(mem@, p as int, 48);
                        assert(ts@ == t@);
                        assert(lit(ts) == encode_utf8(t@));
                    }
                    if len >= 4 {
                        Some(t)
                    } else {
                        None
                    }
                },
                None => None,
            };
            let class = match rtti_name(mem, md, p) {
                Some(n) => Some(short_name(n.as_str())),
                None => None,
            };
            if text.is_some() || class.is_some() {
                let l = ServerLink { off: 8 * k, text, class };
                proof {
                    assert(server_links_view(out@.push(l)) =~= server_links_view(out@).push(server_link_v(l)));
                }
                out.push(l);
            }
        }
        k = k + 1;
    }
    out
}

fn server_actor(mem: &Memory, md: &MainModule, a: usize) -> (r: ServerActor)
    ensures
        server_actor_v(r) == server_actor_spec(mem@, *md, a),
{
    let class = match rtti_name(mem, md, a) {
        Some(n) => Some(short_name(n.as_str())),
        None => None,
    };
    ServerActor {
        actor: a,
        class,
        words: qwords(mem, a, SERVER_ACTOR_WORDS),
        comps: short_comps_of(mem, md, a),
        links: server_links(mem, md, a),
    }
}

fn server_container(mem: &Memory, md: &MainModule, srv: usize, coff: usize, eid: u32) -> (r: Option<ServerContainer>)
    ensures
        match server_container_spec(mem@, *md, srv as int, coff, eid) {
            Some(c) => r matches Some(x) && server_container_v(x) == c,
            None => r is None,
        },
{
    let c = match mem.ptr_at(srv, coff) {
        Some(c) => c,
        None => return None,
    };
    if !mem.readable(c, 0x100) {
        return None;
    }
    let map = match eid_map(mem, c) {
        Some(map) => map,
        None => return None,
    };
    let es = map.entries(mem);
    let mut found: Option<usize> = None;
    let mut i: usize = 0;
    while i < es.len() && found.is_none()
        invariant
            0 <= i <= es@.len(),
            found is None ==> actor_with_eid(es@, eid, 0) == actor_with_eid(es@, eid, i as int),
            found is Some ==> actor_with_eid(es@, eid, 0) == found && i < es@.len(),
        decreases es@.len() - i + (if found is None { 1int } else { 0 }),
    {
        if es[i].0 == eid {
            found = Some(es[i].1);
        } else {
            i = i + 1;
        }
    }
    proof {
        if found is None {
            assert(actor_with_eid(es@, eid, i as int) is None);
        }
    }
    let actor = match found {
        Some(a) => Some(server_actor(mem, md, a)),
        None => None,
    };
    Some(ServerContainer { off: coff, count: map.count, readable: es.len(), actor })
}

/// Looks at the `ServerActorManager` of the census: its classed fields, and
/// for each of the containers at `+0x08`, `+0x10`, `+0x18`, `+0x20` whose eid
/// map reads, the map's count, the entries that read and the server actor
/// with entity id `eid` (its class, words, components and pointer fields).
/// `None` when the census has no such manager.
pub fn server_side(mem: &Memory, md: &MainModule, census: &[(usize, usize, String)], eid: u32) -> (r: Option<ServerSide>)
    ensures
        match server_entry(census@, census@.len() as int) {
            None => r is None,
            Some(j) => r matches Some(s) && s.manager == census@[j].1
                && fields_view(s.fields@) == fields_upto(mem@, *md, census@[j].1 as int, steps(0x600))
                && s.containers@.map_values(|c: ServerContainer| server_container_v(c))
                    == server_containers_upto(mem@, *md, census@[j].1 as int, eid, 4),
        },
{
    let mut j: usize = 0;
    let mut at: Option<usize> = None;
    while j < census.len() && at.is_none()
        invariant
            0 <= j <= census@.len(),
            at is None ==> server_entry(census@, j as int) is None,
            at matches Some(x) ==> x == j && j < census@.len() && server_entry(census@, j + 1) == Some(j as int),
        decreases census@.len() - j + (if at is None { 1int } else { 0 }),
    {
        if crate::strings::str_eq(census[j].2.as_str(), "ServerActorManager") {
            at = Some(j);
        } else {
            j = j + 1;
        }
    }
    let j = match at {
        Some(j) => j,
        None => return None,
    };
    proof {
        lemma_server_entry_stays(census@, j as int + 1, census@.len() as int);
    }
    let srv = census[j].1;
    let fields = object_fields(mem, md, srv, 0x600);
    let offs: [usize; 4] = [0x08, 0x10, 0x18, 0x20];
    let mut containers: Vec<ServerContainer> = Vec::new();
    let mut k: usize = 0;
    while k < 4
        invariant
            0 <= k <= 4,
            offs@ == server_container_offs(),
            containers@.map_values(|c: ServerContainer| server_container_v(c))
                == server_containers_upto(mem@, *md, srv as int, eid, k as int),
        decreases 4 - k,
    {
        let ghost before = containers@;
        if let Some(c) = server_container(mem, md, srv, offs[k], eid) {
            containers.push(c);
            proof {
                assert(containers@.map_values(|c: ServerContainer| server_container_v(c))
                    =~= before.map_values(|c: ServerContainer| server_container_v(c)).push(server_container_v(c)));
            }
        }
        k = k + 1;
    }
    Some(ServerSide { manager: srv, fields, containers })
}

proof fn lemma_server_entry_stays(census: Seq<(usize, usize, String)>, k: int, n: int)
    requires
        0 < k <= n,
        server_entry(census, k) is Some,
    ensures
        server_entry(census, n) == server_entry(census, k),
    decreases n - k,
{
    if n > k {
        lemma_server_entry_stays(census, k, n - 1);
    }
}

} // verus!
