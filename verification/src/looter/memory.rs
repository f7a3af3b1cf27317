//! The game memory the looter reads, as plain values: a list of mapped
//! regions, each a base address and its bytes. Every read the looter makes is
//! a read of this image; a byte outside every region, or past the end of the
//! address space, does not read, and a read of several bytes succeeds only
//! when every one of them does. Pointers are little-endian 64-bit words, and
//! a null pointer does not read as a pointer.

use vstd::prelude::*;
use vstd::utf8::encode_utf8;

verus! {

/// One mapped range of the address space.
pub struct Region {
    pub base: usize,
    pub bytes: Vec<u8>,
}

/// The address space as the looter can see it.
pub struct Memory {
    pub regions: Vec<Region>,
}

pub struct SpecRegion {
    pub base: int,
    pub bytes: Seq<u8>,
}

impl View for Region {
    type V = SpecRegion;

    open spec fn view(&self) -> SpecRegion {
        SpecRegion { base: self.base as int, bytes: self.bytes@ }
    }
}

impl View for Memory {
    type V = Seq<SpecRegion>;

    open spec fn view(&self) -> Seq<SpecRegion> {
        self.regions@.map_values(|r: Region| r@)
    }
}

/// The byte at `a`: from the first region that maps it.
pub open spec fn byte_at(m: Seq<SpecRegion>, a: int) -> Option<u8>
    decreases m.len(),
{
    if a < 0 || a > usize::MAX || m.len() == 0 {
        None
    } else if m[0].base <= a < m[0].base + m[0].bytes.len() {
        Some(m[0].bytes[a - m[0].base])
    } else {
        byte_at(m.skip(1), a)
    }
}

/// Every byte of `[a, a + n)` reads.
pub open spec fn readable(m: Seq<SpecRegion>, a: int, n: int) -> bool {
    forall|i: int| 0 <= i < n ==> (#[trigger] byte_at(m, a + i)) is Some
}

pub open spec fn b(m: Seq<SpecRegion>, a: int) -> int {
    byte_at(m, a)->0 as int
}

pub open spec fn u8_at(m: Seq<SpecRegion>, a: int) -> Option<u8> {
    byte_at(m, a)
}

pub open spec fn u16_at(m: Seq<SpecRegion>, a: int) -> Option<u16> {
    if readable(m, a, 2) {
        Some((b(m, a) + 256 * b(m, a + 1)) as u16)
    } else {
        None
    }
}

pub open spec fn u32_at(m: Seq<SpecRegion>, a: int) -> Option<u32> {
    if readable(m, a, 4) {
        Some((b(m, a) + 256 * b(m, a + 1) + 65536 * b(m, a + 2) + 16777216 * b(m, a + 3)) as u32)
    } else {
        None
    }
}

pub open spec fn u64_at(m: Seq<SpecRegion>, a: int) -> Option<u64> {
    match (u32_at(m, a), u32_at(m, a + 4)) {
        (Some(lo), Some(hi)) => Some((lo + 4294967296 * hi) as u64),
        _ => None,
    }
}

/// `i16` is the two's-complement reading of the `u16`.
pub open spec fn i16_at(m: Seq<SpecRegion>, a: int) -> Option<i16> {
    match u16_at(m, a) {
        Some(v) => Some((if v < 32768 { v as int } else { v - 65536 }) as i16),
        None => None,
    }
}

pub open spec fn i64_at(m: Seq<SpecRegion>, a: int) -> Option<i64> {
    match u64_at(m, a) {
        Some(v) => Some((if v < 0x8000_0000_0000_0000 { v as int } else { v - 0x1_0000_0000_0000_0000 }) as i64),
        None => None,
    }
}

/// A pointer-sized word that is not null.
pub open spec fn ptr_at(m: Seq<SpecRegion>, a: int) -> Option<usize> {
    match u64_at(m, a) {
        Some(v) if v != 0 && v <= usize::MAX => Some(v as usize),
        _ => None,
    }
}

impl Memory {
    /// The byte at `a`, when some region maps it.
    pub fn byte(&self, a: usize) -> (r: Option<u8>)
        ensures
            r == byte_at(self@, a as int),
    {
        let mut i: usize = 0;
        assert(self@.skip(0) =~= self@);
        while i < self.regions.len()
            invariant
                0 <= i <= self.regions.len(),
                byte_at(self@, a as int) == byte_at(self@.skip(i as int), a as int),
            decreases self.regions.len() - i,
        {
            let r = &self.regions[i];
            proof {
                let rest = self@.skip(i as int);
                assert(rest[0] == r@);
                assert(rest.skip(1) =~= self@.skip(i + 1));
            }
            if r.base <= a && a - r.base < r.bytes.len() {
                return Some(r.bytes[a - r.base]);
            }
            i = i + 1;
        }
        None
    }

    /// Whether all of `[a, a + n)` reads.
    pub fn readable(&self, a: usize, n: usize) -> (r: bool)
        ensures
            r == readable(self@, a as int, n as int),
    {
        let mut i: usize = 0;
        while i < n
            invariant
                0 <= i <= n,
                forall|j: int| 0 <= j < i ==> (#[trigger] byte_at(self@, a + j)) is Some,
            decreases n - i,
        {
            if a > usize::MAX - i {
                assert(byte_at(self@, a + i) is None);
                return false;
            }
            if self.byte(a + i).is_none() {
                return false;
            }
            i = i + 1;
        }
        true
    }

    pub fn read_u8(&self, a: usize) -> (r: Option<u8>)
        ensures
            r == u8_at(self@, a as int),
    {
        self.byte(a)
    }

    /// The byte at `a + k`, or `None` past the end of the address space.
    fn byte_off(&self, a: usize, k: usize) -> (r: Option<u8>)
        ensures
            r == byte_at(self@, a + k),
    {
        if a > usize::MAX - k {
            return None;
        }
        self.byte(a + k)
    }

    pub fn read_u16(&self, a: usize) -> (r: Option<u16>)
        ensures
            r == u16_at(self@, a as int),
    {
        let b0 = self.byte_off(a, 0);
        let b1 = self.byte_off(a, 1);
        match (b0, b1) {
            (Some(x0), Some(x1)) => {
                proof {
                    assert forall|i: int| 0 <= i < 2 implies (#[trigger] byte_at(self@, a + i)) is Some by {
                        if i == 0 {} else {}
                    }
                }
                Some(x0 as u16 + 256 * (x1 as u16))
            },
            _ => {
                proof {
                    if b0 is None {
                        assert(byte_at(self@, a + 0) is None);
                    } else {
                        assert(byte_at(self@, a + 1) is None);
                    }
                }
                None
            },
        }
    }

    pub fn read_u32(&self, a: usize) -> (r: Option<u32>)
        ensures
            r == u32_at(self@, a as int),
    {
        let b0 = self.byte_off(a, 0);
        let b1 = self.byte_off(a, 1);
        let b2 = self.byte_off(a, 2);
        let b3 = self.byte_off(a, 3);
        match (b0, b1, b2, b3) {
            (Some(x0), Some(x1), Some(x2), Some(x3)) => {
                proof {
                    assert forall|i: int| 0 <= i < 4 implies (#[trigger] byte_at(self@, a + i)) is Some by {
                        if i == 0 {} else if i == 1 {} else if i == 2 {} else {}
                    }
                }
                Some(x0 as u32 + 256 * (x1 as u32) + 65536 * (x2 as u32) + 16777216 * (x3 as u32))
            },
            _ => {
                proof {
                    if b0 is None {
                        assert(byte_at(self@, a + 0) is None);
                    } else if b1 is None {
                        assert(byte_at(self@, a + 1) is None);
                    } else if b2 is None {
                        assert(byte_at(self@, a + 2) is None);
                    } else {
                        assert(byte_at(self@, a + 3) is None);
                    }
                }
                None
            },
        }
    }

    pub fn read_u64(&self, a: usize) -> (r: Option<u64>)
        ensures
            r == u64_at(self@, a as int),
    {
        let lo = self.read_u32(a);
        let hi = if a > usize::MAX - 4 {
            proof {
                assert(byte_at(self@, a + 4 + 0) is None);
            }
            None
        } else {
            self.read_u32(a + 4)
        };
        match (lo, hi) {
            (Some(l), Some(h)) => Some(l as u64 + 4294967296 * (h as u64)),
            _ => None,
        }
    }

    pub fn read_i16(&self, a: usize) -> (r: Option<i16>)
        ensures
            r == i16_at(self@, a as int),
    {
        match self.read_u16(a) {
            Some(v) => Some(if v < 32768 { v as i16 } else { (v as i32 - 65536) as i16 }),
            None => None,
        }
    }

    pub fn read_i64(&self, a: usize) -> (r: Option<i64>)
        ensures
            r == i64_at(self@, a as int),
    {
        match self.read_u64(a) {
            Some(v) => Some(if v < 0x8000_0000_0000_0000 { v as i64 } else { (v as i128 - 0x1_0000_0000_0000_0000i128) as i64 }),
            None => None,
        }
    }

    /// A non-null pointer stored at `a`.
    pub fn read_ptr(&self, a: usize) -> (r: Option<usize>)
        ensures
            r == ptr_at(self@, a as int),
    {
        match self.read_u64(a) {
            Some(v) => {
                if v != 0 && v <= usize::MAX as u64 {
                    Some(v as usize)
                } else {
                    None
                }
            },
            None => None,
        }
    }
}

/// A printable ASCII byte: what the game's identifiers and paths are made of.
pub open spec fn printable(c: u8) -> bool {
    0x20 <= c <= 0x7E
}

/// The C string at `a`: the bytes before the first NUL, when that NUL comes
/// within `max` bytes, every byte up to it reads, and every one before it is
/// printable ASCII. Anything else is not taken for a string.
pub open spec fn cstr_at(m: Seq<SpecRegion>, a: int, max: int) -> Option<Seq<u8>>
    decreases max,
{
    if max <= 0 {
        None
    } else {
        match byte_at(m, a) {
            None => None,
            Some(c) => if c == 0 {
                Some(seq![])
            } else if printable(c) {
                match cstr_at(m, a + 1, max - 1) {
                    Some(s) => Some(seq![c] + s),
                    None => None,
                }
            } else {
                None
            },
        }
    }
}

pub proof fn lemma_cstr_ascii(m: Seq<SpecRegion>, a: int, max: int)
    ensures
        cstr_at(m, a, max) matches Some(s) ==> crate::strings::all_ascii(s) && s.len() < max,
    decreases max,
{
    if max > 0 {
        lemma_cstr_ascii(m, a + 1, max - 1);
        if let Some(c) = byte_at(m, a) {
            if c != 0 && printable(c) {
                if let Some(t) = cstr_at(m, a + 1, max - 1) {
                    let s = seq![c] + t;
                    assert forall|i: int| 0 <= i < s.len() implies #[trigger] s[i] < 128 by {
                        if i > 0 {
                            assert(s[i] == t[i - 1]);
                        }
                    }
                }
            }
        }
    }
}

impl Memory {
    /// The C string at `a`, read at most `max` bytes far.
    pub fn read_cstr(&self, a: usize, max: usize) -> (r: Option<String>)
        ensures
            r is Some <==> cstr_at(self@, a as int, max as int) is Some,
            r matches Some(s) ==> encode_utf8(s@) == cstr_at(self@, a as int, max as int)->0,
    {
        let mut out: Vec<u8> = Vec::new();
        let mut i: usize = 0;
        while i < max
            invariant
                0 <= i <= max,
                crate::strings::all_ascii(out@),
                cstr_at(self@, a as int, max as int) == match cstr_at(self@, a + i, max - i) {
                    Some(t) => Some(out@ + t),
                    None => None,
                },
            decreases max - i,
        {
            let c = match self.byte_off(a, i) {
                Some(c) => c,
                None => return None,
            };
            if c == 0 {
                proof {
                    assert(out@ + Seq::<u8>::empty() =~= out@);
                    crate::strings::lemma_ascii_encode(out@);
                }
                return Some(crate::strings::ascii_string(out));
            }
            if !(0x20 <= c && c <= 0x7E) {
                return None;
            }
            proof {
                assert(a + i + 1 == a + (i + 1));
                match cstr_at(self@, a + (i + 1), max - (i + 1)) {
                    Some(t) => {
                        assert(out@ + (seq![c] + t) =~= out@.push(c) + t);
                    },
                    None => {},
                }
            }
            out.push(c);
            i = i + 1;
        }
        None
    }
}

/// `base + off`, when it does not leave the address space.
pub open spec fn addr(base: int, off: int) -> Option<usize> {
    if 0 <= base + off <= usize::MAX {
        Some((base + off) as usize)
    } else {
        None
    }
}

pub fn offset(base: usize, off: usize) -> (r: Option<usize>)
    ensures
        r == addr(base as int, off as int),
{
    if base > usize::MAX - off {
        None
    } else {
        Some(base + off)
    }
}

impl Memory {
    /// The non-null pointer at `base + off`.
    pub fn ptr_at(&self, base: usize, off: usize) -> (r: Option<usize>)
        ensures
            r == ptr_at(self@, base + off),
    {
        match offset(base, off) {
            Some(a) => self.read_ptr(a),
            None => {
                proof {
                    assert(byte_at(self@, base + off + 0) is None);
                }
                None
            },
        }
    }

    pub fn u64_at(&self, base: usize, off: usize) -> (r: Option<u64>)
        ensures
            r == u64_at(self@, base + off),
    {
        match offset(base, off) {
            Some(a) => self.read_u64(a),
            None => {
                proof {
                    assert(byte_at(self@, base + off + 0) is None);
                }
                None
            },
        }
    }

    /// The word at `base + 8 * i`.
    pub fn word(&self, base: usize, i: usize) -> (r: Option<u64>)
        ensures
            r == u64_at(self@, base + 8 * i),
    {
        if i > usize::MAX / 8 {
            proof {
                assert(8 * i > usize::MAX) by (nonlinear_arith)
                    requires
                        i > usize::MAX / 8,
                ;
                assert(byte_at(self@, base + 8 * i + 0) is None);
            }
            return None;
        }
        proof {
            assert(8 * i <= usize::MAX) by (nonlinear_arith)
                requires
                    i <= usize::MAX / 8,
            ;
        }
        self.u64_at(base, 8 * i)
    }

    pub fn u32_at(&self, base: usize, off: usize) -> (r: Option<u32>)
        ensures
            r == u32_at(self@, base + off),
    {
        match offset(base, off) {
            Some(a) => self.read_u32(a),
            None => {
                proof {
                    assert(byte_at(self@, base + off + 0) is None);
                }
                None
            },
        }
    }

    pub fn u16_at(&self, base: usize, off: usize) -> (r: Option<u16>)
        ensures
            r == u16_at(self@, base + off),
    {
        match offset(base, off) {
            Some(a) => self.read_u16(a),
            None => {
                proof {
                    assert(byte_at(self@, base + off + 0) is None);
                }
                None
            },
        }
    }

    pub fn u8_at(&self, base: usize, off: usize) -> (r: Option<u8>)
        ensures
            r == u8_at(self@, base + off),
    {
        match offset(base, off) {
            Some(a) => self.read_u8(a),
            None => None,
        }
    }

    pub fn i16_at(&self, base: usize, off: usize) -> (r: Option<i16>)
        ensures
            r == i16_at(self@, base + off),
    {
        match offset(base, off) {
            Some(a) => self.read_i16(a),
            None => {
                proof {
                    assert(byte_at(self@, base + off + 0) is None);
                }
                None
            },
        }
    }

    pub fn i64_at(&self, base: usize, off: usize) -> (r: Option<i64>)
        ensures
            r == i64_at(self@, base + off),
    {
        match offset(base, off) {
            Some(a) => self.read_i64(a),
            None => {
                proof {
                    assert(byte_at(self@, base + off + 0) is None);
                }
                None
            },
        }
    }
}

/// The game's main module: where its image is mapped.
#[derive(Debug, Clone, Copy, PartialEq, Eq, Structural)]
pub struct MainModule {
    pub base: usize,
    pub size: usize,
}

impl MainModule {
    /// Whether `p` falls inside the mapped image.
    pub fn contains(&self, p: usize) -> (r: bool)
        ensures
            r == (self.base <= p && p - self.base < self.size),
    {
        self.base <= p && p - self.base < self.size
    }
}

} // verus!

verus! {

// ---------------------------------------------------------------------------
// Writes
// ---------------------------------------------------------------------------

/// Whether region `r` maps address `a`.
pub open spec fn maps(r: SpecRegion, a: int) -> bool {
    r.base <= a < r.base + r.bytes.len()
}

/// The first region that maps `a`: the one a read of `a` reads.
pub open spec fn region_of(m: Seq<SpecRegion>, a: int) -> Option<int>
    decreases m.len(),
{
    if a < 0 || a > usize::MAX || m.len() == 0 {
        None
    } else if maps(m[0], a) {
        Some(0)
    } else {
        match region_of(m.skip(1), a) {
            Some(j) => Some(j + 1),
            None => None,
        }
    }
}

pub proof fn lemma_region_of(m: Seq<SpecRegion>, a: int)
    ensures
        byte_at(m, a) == match region_of(m, a) {
            Some(j) => Some(m[j].bytes[a - m[j].base]),
            None => None::<u8>,
        },
        region_of(m, a) matches Some(j) ==> 0 <= j < m.len() && maps(m[j], a),
    decreases m.len(),
{
    if !(a < 0 || a > usize::MAX || m.len() == 0) && !maps(m[0], a) {
        lemma_region_of(m.skip(1), a);
    }
}

/// Two memories with the same regions at the same places, whatever bytes
/// they hold.
pub open spec fn same_shape(m: Seq<SpecRegion>, n: Seq<SpecRegion>) -> bool {
    m.len() == n.len() && forall|j: int| 0 <= j < m.len() ==> (#[trigger] m[j]).base == n[j].base && m[j].bytes.len() == n[j].bytes.len()
}

pub proof fn lemma_same_shape_region(m: Seq<SpecRegion>, n: Seq<SpecRegion>, a: int)
    requires
        same_shape(m, n),
    ensures
        region_of(m, a) == region_of(n, a),
    decreases m.len(),
{
    if !(a < 0 || a > usize::MAX || m.len() == 0) {
        assert(m[0].base == n[0].base && m[0].bytes.len() == n[0].bytes.len());
        if !maps(m[0], a) {
            assert forall|j: int| 0 <= j < m.skip(1).len() implies (#[trigger] m.skip(1)[j]).base == n.skip(1)[j].base
                && m.skip(1)[j].bytes.len() == n.skip(1)[j].bytes.len() by {
                assert(m.skip(1)[j] == m[j + 1]);
                assert(n.skip(1)[j] == n[j + 1]);
            }
            lemma_same_shape_region(m.skip(1), n.skip(1), a);
        }
    }
}

/// `m` with the byte at `a` set to `b`, in the region a read of `a` reads;
/// `m` itself when no region maps `a`.
pub open spec fn set_byte_spec(m: Seq<SpecRegion>, a: int, b: u8) -> Seq<SpecRegion> {
    match region_of(m, a) {
        Some(j) => m.update(j, SpecRegion { base: m[j].base, bytes: m[j].bytes.update(a - m[j].base, b) }),
        None => m,
    }
}

/// A byte write changes the byte written and nothing else.
pub proof fn lemma_set_byte(m: Seq<SpecRegion>, a: int, b: u8, y: int)
    ensures
        same_shape(m, set_byte_spec(m, a, b)),
        byte_at(set_byte_spec(m, a, b), y) == if y == a && byte_at(m, a) is Some {
            Some(b)
        } else {
            byte_at(m, y)
        },
{
    let n = set_byte_spec(m, a, b);
    lemma_region_of(m, a);
    lemma_region_of(m, y);
    assert(same_shape(m, n));
    lemma_same_shape_region(m, n, y);
    lemma_region_of(n, y);
}

/// Byte `k` of `v`, little-endian.
pub open spec fn le_byte(v: u64, k: int) -> u8 {
    ((v >> (8 * k) as u64) & 0xff) as u8
}

/// Bytes `k..8` of `v` written from `a + k` on.
pub open spec fn write_from(m: Seq<SpecRegion>, a: int, v: u64, k: int) -> Seq<SpecRegion>
    decreases 8 - k,
{
    if k >= 8 {
        m
    } else {
        write_from(set_byte_spec(m, a + k, le_byte(v, k)), a, v, k + 1)
    }
}

/// `m` with the eight bytes of `v` written little-endian at `a`, when all
/// of them map; `m` itself when one does not.
pub open spec fn mem_write(m: Seq<SpecRegion>, a: int, v: u64) -> Seq<SpecRegion> {
    if readable(m, a, 8) {
        write_from(m, a, v, 0)
    } else {
        m
    }
}

proof fn lemma_write_from(m: Seq<SpecRegion>, a: int, v: u64, k: int, y: int)
    requires
        0 <= k <= 8,
        forall|i: int| k <= i < 8 ==> (#[trigger] byte_at(m, a + i)) is Some,
    ensures
        same_shape(m, write_from(m, a, v, k)),
        byte_at(write_from(m, a, v, k), y) == if a + k <= y < a + 8 {
            Some(le_byte(v, y - a))
        } else {
            byte_at(m, y)
        },
    decreases 8 - k,
{
    if k < 8 {
        let n = set_byte_spec(m, a + k, le_byte(v, k));
        assert forall|i: int| k + 1 <= i < 8 implies (#[trigger] byte_at(n, a + i)) is Some by {
            lemma_set_byte(m, a + k, le_byte(v, k), a + i);
        }
        lemma_write_from(n, a, v, k + 1, y);
        lemma_set_byte(m, a + k, le_byte(v, k), y);
        let w = write_from(n, a, v, k + 1);
        assert(same_shape(m, w)) by {
            assert forall|j: int| 0 <= j < m.len() implies (#[trigger] m[j]).base == w[j].base && m[j].bytes.len() == w[j].bytes.len() by {
                assert(n[j].base == m[j].base);
            }
        }
    }
}

proof fn lemma_le_bytes(v: u64)
    ensures
        le_byte(v, 0) + 256 * le_byte(v, 1) + 65536 * le_byte(v, 2) + 16777216 * le_byte(v, 3)
            + 4294967296 * (le_byte(v, 4) + 256 * le_byte(v, 5) + 65536 * le_byte(v, 6) + 16777216 * le_byte(v, 7)) == v,
{
    let b0 = ((v >> 0u64) & 0xff) as u8;
    let b1 = ((v >> 8u64) & 0xff) as u8;
    let b2 = ((v >> 16u64) & 0xff) as u8;
    let b3 = ((v >> 24u64) & 0xff) as u8;
    let b4 = ((v >> 32u64) & 0xff) as u8;
    let b5 = ((v >> 40u64) & 0xff) as u8;
    let b6 = ((v >> 48u64) & 0xff) as u8;
    let b7 = ((v >> 56u64) & 0xff) as u8;
    assert(b0 as u64 + 256 * b1 as u64 + 65536 * b2 as u64 + 16777216 * b3 as u64 + 4294967296 * (b4 as u64 + 256
        * b5 as u64 + 65536 * b6 as u64 + 16777216 * b7 as u64) == v) by (bit_vector)
        requires
            b0 == ((v >> 0u64) & 0xff) as u8,
            b1 == ((v >> 8u64) & 0xff) as u8,
            b2 == ((v >> 16u64) & 0xff) as u8,
            b3 == ((v >> 24u64) & 0xff) as u8,
            b4 == ((v >> 32u64) & 0xff) as u8,
            b5 == ((v >> 40u64) & 0xff) as u8,
            b6 == ((v >> 48u64) & 0xff) as u8,
            b7 == ((v >> 56u64) & 0xff) as u8,
    ;
    assert(le_byte(v, 0) == b0 && le_byte(v, 1) == b1 && le_byte(v, 2) == b2 && le_byte(v, 3) == b3);
    assert(le_byte(v, 4) == b4 && le_byte(v, 5) == b5 && le_byte(v, 6) == b6 && le_byte(v, 7) == b7);
}

/// A write of eight readable bytes reads back as the value written, and
/// leaves every other byte, and what maps, as it was.
pub proof fn lemma_mem_write(m: Seq<SpecRegion>, a: int, v: u64)
    requires
        readable(m, a, 8),
    ensures
        same_shape(m, mem_write(m, a, v)),
        u64_at(mem_write(m, a, v), a) == Some(v),
        forall|y: int| !(a <= y < a + 8) ==> #[trigger] byte_at(mem_write(m, a, v), y) == byte_at(m, y),
        forall|y: int| (#[trigger] byte_at(mem_write(m, a, v), y)) is Some == byte_at(m, y) is Some,
{
    let w = mem_write(m, a, v);
    assert forall|y: int| #[trigger] byte_at(w, y) == (if a <= y < a + 8 { Some(le_byte(v, y - a)) } else { byte_at(m, y) }) by {
        lemma_write_from(m, a, v, 0, y);
    }
    lemma_write_from(m, a, v, 0, a);
    assert forall|y: int| (#[trigger] byte_at(w, y)) is Some == byte_at(m, y) is Some by {
        if a <= y < a + 8 {
            assert(byte_at(m, a + (y - a)) is Some);
        }
    }
    assert forall|i: int| 0 <= i < 8 implies (#[trigger] byte_at(w, a + i)) is Some by {
        assert(byte_at(w, a + i) == Some(le_byte(v, i)));
    }
    assert(byte_at(w, a + 0) == Some(le_byte(v, 0)));
    assert(byte_at(w, a + 1) == Some(le_byte(v, 1)));
    assert(byte_at(w, a + 2) == Some(le_byte(v, 2)));
    assert(byte_at(w, a + 3) == Some(le_byte(v, 3)));
    assert(byte_at(w, a + 4) == Some(le_byte(v, 4)));
    assert(byte_at(w, a + 5) == Some(le_byte(v, 5)));
    assert(byte_at(w, a + 6) == Some(le_byte(v, 6)));
    assert(byte_at(w, a + 7) == Some(le_byte(v, 7)));
    assert(readable(w, a, 4));
    assert forall|i: int| 0 <= i < 4 implies (#[trigger] byte_at(w, a + 4 + i)) is Some by {
        assert(byte_at(w, a + (4 + i)) is Some);
        assert(a + 4 + i == a + (4 + i));
    }
    assert(readable(w, a + 4, 4));
    lemma_le_bytes(v);
}

impl Memory {
    /// The index of the first region that maps `a`.
    fn region_index(&self, a: usize) -> (r: Option<usize>)
        ensures
            match r {
                Some(i) => region_of(self@, a as int) == Some(i as int),
                None => region_of(self@, a as int) is None,
            },
    {
        let mut i: usize = 0;
        assert(self@.skip(0) =~= self@);
        while i < self.regions.len()
            invariant
                0 <= i <= self.regions.len(),
                region_of(self@, a as int) == match region_of(self@.skip(i as int), a as int) {
                    Some(j) => Some(j + i),
                    None => None,
                },
            decreases self.regions.len() - i,
        {
            let r = &self.regions[i];
            proof {
                let rest = self@.skip(i as int);
                assert(rest[0] == r@);
                assert(rest.skip(1) =~= self@.skip(i + 1));
            }
            if r.base <= a && a - r.base < r.bytes.len() {
                return Some(i);
            }
            i = i + 1;
        }
        None
    }

    /// Set the byte at `a`, in the region a read of `a` reads.
    fn set_byte(&mut self, a: usize, b: u8)
        ensures
            final(self)@ == set_byte_spec(old(self)@, a as int, b),
    {
        proof {
            lemma_region_of(self@, a as int);
        }
        let j = match self.region_index(a) {
            Some(j) => j,
            None => return,
        };
        assert(region_of(self@, a as int) == Some(j as int));
        assert(maps(self@[j as int], a as int));
        assert(self@[j as int] == self.regions@[j as int]@);
        let off = a - self.regions[j].base;
        let ghost m0 = self@;
        let r = &mut self.regions[j];
        r.bytes.set(off, b);
        proof {
            assert(self@ =~= set_byte_spec(m0, a as int, b));
        }
    }

    /// Write `v` little-endian at `a`, when all eight bytes map; whether it
    /// was written.
    pub fn write_u64(&mut self, a: usize, v: u64) -> (r: bool)
        ensures
            r == readable(old(self)@, a as int, 8),
            final(self)@ == mem_write(old(self)@, a as int, v),
    {
        if !self.readable(a, 8) {
            return false;
        }
        let ghost m0 = self@;
        proof {
            assert(byte_at(m0, a + 7) is Some);
        }
        let mut k: usize = 0;
        while k < 8
            invariant
                0 <= k <= 8,
                a + 8 <= usize::MAX + 1,
                readable(m0, a as int, 8),
                write_from(m0, a as int, v, 0) == write_from(self@, a as int, v, k as int),
            decreases 8 - k,
        {
            let byte = ((v >> (8 * k) as u64) & 0xff) as u8;
            assert(byte == le_byte(v, k as int));
            self.set_byte(a + k, byte);
            k = k + 1;
        }
        true
    }
}

} // verus!

verus! {

/// The `n` bytes at `a`, when every one of them reads.
pub open spec fn bytes_at(m: Seq<SpecRegion>, a: int, n: int) -> Option<Seq<u8>> {
    if readable(m, a, n) {
        Some(Seq::new(n as nat, |i: int| byte_at(m, a + i)->0))
    } else {
        None
    }
}

impl Memory {
    /// The `n` bytes at `a`, or `None` when one of them does not read.
    pub fn read_bytes(&self, a: usize, n: usize) -> (r: Option<Vec<u8>>)
        ensures
            match bytes_at(self@, a as int, n as int) {
                Some(s) => r matches Some(v) && v@ == s,
                None => r is None,
            },
    {
        let mut out: Vec<u8> = Vec::new();
        let mut i: usize = 0;
        while i < n
            invariant
                0 <= i <= n,
                out@.len() == i,
                forall|j: int| 0 <= j < i ==> (#[trigger] byte_at(self@, a + j)) == Some(out@[j]),
            decreases n - i,
        {
            match self.byte_off(a, i) {
                Some(b) => out.push(b),
                None => return None,
            }
            i = i + 1;
        }
        proof {
            assert(readable(self@, a as int, n as int));
            assert(out@ =~= Seq::new(n as nat, |j: int| byte_at(self@, a + j)->0));
        }
        Some(out)
    }
}

} // verus!
