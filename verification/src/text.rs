//! Byte-level text primitives every parser in the crate is built from:
//! Unicode whitespace trimming over UTF-8 bytes, ASCII case folding, integer
//! parsing with the rules of Rust's `FromStr`, and decimal and hex rendering.

use vstd::prelude::*;

verus! {

/// ASCII whitespace as `char::is_whitespace` sees it.
pub open spec fn is_ascii_ws(b: u8) -> bool {
    b == 0x09 || b == 0x0A || b == 0x0B || b == 0x0C || b == 0x0D || b == 0x20
}

/// Length of the UTF-8 encoded whitespace character `s` starts with, or 0.
///
/// The set is `char::is_whitespace`: the six ASCII ones plus U+0085, U+00A0,
/// U+1680, U+2000..=U+200A, U+2028, U+2029, U+202F, U+205F and U+3000.
pub open spec fn ws_len_fwd(s: Seq<u8>) -> int {
    if s.len() >= 1 && is_ascii_ws(s[0]) {
        1
    } else if s.len() >= 2 && s[0] == 0xC2 && (s[1] == 0x85 || s[1] == 0xA0) {
        2
    } else if s.len() >= 3 && s[0] == 0xE1 && s[1] == 0x9A && s[2] == 0x80 {
        3
    } else if s.len() >= 3 && s[0] == 0xE2 && s[1] == 0x80 && ((0x80 <= s[2] && s[2] <= 0x8A)
        || s[2] == 0xA8 || s[2] == 0xA9 || s[2] == 0xAF) {
        3
    } else if s.len() >= 3 && s[0] == 0xE2 && s[1] == 0x81 && s[2] == 0x9F {
        3
    } else if s.len() >= 3 && s[0] == 0xE3 && s[1] == 0x80 && s[2] == 0x80 {
        3
    } else {
        0
    }
}

/// Length of the UTF-8 encoded whitespace character `s` ends with, or 0.
pub open spec fn ws_len_bwd(s: Seq<u8>) -> int {
    let n = s.len() as int;
    if n >= 1 && is_ascii_ws(s[n - 1]) {
        1
    } else if n >= 2 && s[n - 2] == 0xC2 && (s[n - 1] == 0x85 || s[n - 1] == 0xA0) {
        2
    } else if n >= 3 && s[n - 3] == 0xE1 && s[n - 2] == 0x9A && s[n - 1] == 0x80 {
        3
    } else if n >= 3 && s[n - 3] == 0xE2 && s[n - 2] == 0x80 && ((0x80 <= s[n - 1] && s[n - 1]
        <= 0x8A) || s[n - 1] == 0xA8 || s[n - 1] == 0xA9 || s[n - 1] == 0xAF) {
        3
    } else if n >= 3 && s[n - 3] == 0xE2 && s[n - 2] == 0x81 && s[n - 1] == 0x9F {
        3
    } else if n >= 3 && s[n - 3] == 0xE3 && s[n - 2] == 0x80 && s[n - 1] == 0x80 {
        3
    } else {
        0
    }
}

/// `str::trim_start`.
pub open spec fn trim_start(s: Seq<u8>) -> Seq<u8>
    decreases s.len(),
{
    if ws_len_fwd(s) > 0 {
        trim_start(s.skip(ws_len_fwd(s)))
    } else {
        s
    }
}

/// `str::trim_end`.
pub open spec fn trim_end(s: Seq<u8>) -> Seq<u8>
    decreases s.len(),
{
    if ws_len_bwd(s) > 0 {
        trim_end(s.take(s.len() - ws_len_bwd(s)))
    } else {
        s
    }
}

/// `str::trim`.
pub open spec fn trim(s: Seq<u8>) -> Seq<u8> {
    trim_end(trim_start(s))
}

/// `u8::to_ascii_lowercase`.
pub open spec fn lower(b: u8) -> u8 {
    if 0x41 <= b && b <= 0x5A {
        (b + 32) as u8
    } else {
        b
    }
}

/// `eq_ignore_ascii_case`.
pub open spec fn eq_ic(a: Seq<u8>, b: Seq<u8>) -> bool {
    a.len() == b.len() && forall|i: int| 0 <= i < a.len() ==> lower(#[trigger] a[i]) == lower(b[i])
}

pub proof fn lemma_eq_ic_symm(a: Seq<u8>, b: Seq<u8>)
    ensures
        eq_ic(a, b) == eq_ic(b, a),
{
    if eq_ic(a, b) {
        assert forall|i: int| 0 <= i < b.len() implies lower(#[trigger] b[i]) == lower(a[i]) by {
            assert(lower(a[i]) == lower(b[i]));
        }
    }
    if eq_ic(b, a) {
        assert forall|i: int| 0 <= i < a.len() implies lower(#[trigger] a[i]) == lower(b[i]) by {
            assert(lower(b[i]) == lower(a[i]));
        }
    }
}

/// Index of the first `b` in `s`, or `s.len()` when there is none.
pub open spec fn first_index(s: Seq<u8>, b: u8) -> int
    decreases s.len(),
{
    if s.len() == 0 {
        0
    } else if s[0] == b {
        0
    } else {
        1 + first_index(s.skip(1), b)
    }
}

pub proof fn lemma_first_index(s: Seq<u8>, b: u8)
    ensures
        0 <= first_index(s, b) <= s.len(),
        forall|j: int| 0 <= j < first_index(s, b) ==> s[j] != b,
        first_index(s, b) < s.len() ==> s[first_index(s, b)] == b,
    decreases s.len(),
{
    if s.len() > 0 && s[0] != b {
        lemma_first_index(s.skip(1), b);
        assert forall|j: int| 0 <= j < first_index(s, b) implies s[j] != b by {
            if j > 0 {
                assert(s.skip(1)[j - 1] == s[j]);
            }
        }
    }
}

/// The characterisation the loops below establish: nothing before `k`, and
/// `b` at `k` unless `k` is the end.
pub proof fn lemma_first_index_unique(s: Seq<u8>, b: u8, k: int)
    requires
        0 <= k <= s.len(),
        forall|j: int| 0 <= j < k ==> s[j] != b,
        k < s.len() ==> s[k] == b,
    ensures
        first_index(s, b) == k,
{
    lemma_first_index(s, b);
    let f = first_index(s, b);
    if f < k {
        assert(s[f] == b);
    } else if k < f {
        assert(s[k] != b);
    }
}

/// `hay` holds `needle` somewhere.
pub open spec fn has_sub(hay: Seq<u8>, needle: Seq<u8>) -> bool {
    exists|i: int| 0 <= i && i + needle.len() <= hay.len() && #[trigger] hay.subrange(i, i + needle.len()) == needle
}

/// `needle` is a prefix of `s`.
pub open spec fn has_prefix(s: Seq<u8>, needle: Seq<u8>) -> bool {
    needle.len() <= s.len() && s.take(needle.len() as int) == needle
}

/// `needle` is a suffix of `s`.
pub open spec fn has_suffix(s: Seq<u8>, needle: Seq<u8>) -> bool {
    needle.len() <= s.len() && s.skip(s.len() - needle.len()) == needle
}

// ---------------------------------------------------------------------------
// Trim algebra
// ---------------------------------------------------------------------------

/// `trim_start` takes a suffix.
pub proof fn lemma_trim_start_suffix(s: Seq<u8>)
    ensures
        trim_start(s).len() <= s.len(),
        trim_start(s) == s.skip(s.len() - trim_start(s).len()),
    decreases s.len(),
{
    let w = ws_len_fwd(s);
    if w > 0 {
        lemma_trim_start_suffix(s.skip(w));
        let t = s.skip(w);
        assert(t.skip(t.len() - trim_start(t).len()) =~= s.skip(s.len() - trim_start(t).len()));
    } else {
        assert(s.skip(0) =~= s);
    }
}

/// `trim_end` takes a prefix.
pub proof fn lemma_trim_end_prefix(s: Seq<u8>)
    ensures
        trim_end(s).len() <= s.len(),
        trim_end(s) == s.take(trim_end(s).len() as int),
    decreases s.len(),
{
    let w = ws_len_bwd(s);
    if w > 0 {
        let t = s.take(s.len() - w);
        lemma_trim_end_prefix(t);
        assert(t.take(trim_end(t).len() as int) =~= s.take(trim_end(t).len() as int));
    } else {
        assert(s.take(s.len() as int) =~= s);
    }
}

/// What `trim_start` leaves does not start with whitespace.
pub proof fn lemma_trim_start_stops(s: Seq<u8>)
    ensures
        ws_len_fwd(trim_start(s)) == 0,
    decreases s.len(),
{
    if ws_len_fwd(s) > 0 {
        lemma_trim_start_stops(s.skip(ws_len_fwd(s)));
    }
}

/// A whitespace character at the front of `x` is still there in `x + y`.
pub proof fn lemma_ws_fwd_extend(x: Seq<u8>, y: Seq<u8>)
    requires
        ws_len_fwd(x) > 0,
    ensures
        ws_len_fwd(x + y) == ws_len_fwd(x),
{
    let s = x + y;
    assert(x.len() >= 1 ==> s[0] == x[0]);
    assert(x.len() >= 2 ==> s[1] == x[1]);
    assert(x.len() >= 3 ==> s[2] == x[2]);
}

/// Nothing that follows with an ASCII byte can complete a whitespace
/// character begun in `x`.
pub proof fn lemma_ws_fwd_ascii_next(x: Seq<u8>, y: Seq<u8>)
    requires
        x.len() > 0,
        y.len() > 0,
        y[0] < 0x80,
    ensures
        ws_len_fwd(x + y) == ws_len_fwd(x),
{
    let s = x + y;
    assert(s[0] == x[0]);
    assert(x.len() >= 2 ==> s[1] == x[1]);
    assert(x.len() >= 3 ==> s[2] == x[2]);
    assert(x.len() == 1 ==> s[1] == y[0]);
    assert(x.len() == 2 ==> s[2] == y[0]);
    if ws_len_fwd(x) > 0 {
        lemma_ws_fwd_extend(x, y);
    }
}

/// Whitespace in front of `y` is all `trim_start` sees of it.
pub proof fn lemma_trim_start_ws_prefix(g: Seq<u8>, y: Seq<u8>)
    requires
        trim_start(g).len() == 0,
    ensures
        trim_start(g + y) == trim_start(y),
    decreases g.len(),
{
    if g.len() > 0 {
        let w = ws_len_fwd(g);
        if w == 0 {
            assert(trim_start(g) == g);
        } else {
            lemma_ws_fwd_extend(g, y);
            assert((g + y).skip(w) =~= g.skip(w) + y);
            lemma_trim_start_ws_prefix(g.skip(w), y);
        }
    } else {
        assert(g + y =~= y);
    }
}

/// `trim_start(x + y)` when `x` has something left after trimming and `y`
/// opens with an ASCII byte.
pub proof fn lemma_trim_start_concat(x: Seq<u8>, y: Seq<u8>)
    requires
        trim_start(x).len() > 0,
        y.len() > 0,
        y[0] < 0x80,
    ensures
        trim_start(x + y) == trim_start(x) + y,
    decreases x.len(),
{
    let w = ws_len_fwd(x);
    lemma_ws_fwd_ascii_next(x, y);
    if w > 0 {
        assert((x + y).skip(w) =~= x.skip(w) + y);
        lemma_trim_start_concat(x.skip(w), y);
    }
}

/// A non-empty text that does not start with whitespace keeps its first
/// byte through `trim_end`.
pub proof fn lemma_trim_end_first(z: Seq<u8>)
    requires
        z.len() > 0,
        ws_len_fwd(z) == 0,
    ensures
        trim_end(z).len() > 0,
        trim_end(z)[0] == z[0],
    decreases z.len(),
{
    let w = ws_len_bwd(z);
    if w > 0 {
        let t = z.take(z.len() - w);
        if t.len() == 0 {
            assert(z.len() == w);
            assert(ws_len_fwd(z) > 0);
        } else {
            assert(t[0] == z[0]);
            assert(ws_len_fwd(t) == 0) by {
                if ws_len_fwd(t) > 0 {
                    lemma_ws_fwd_extend(t, z.skip(z.len() - w));
                    assert(t + z.skip(z.len() - w) =~= z);
                }
            }
            lemma_trim_end_first(t);
        }
    }
}

/// The first byte `trim` keeps is the first byte `trim_start` keeps.
pub proof fn lemma_trim_first(s: Seq<u8>)
    requires
        trim_start(s).len() > 0,
    ensures
        trim(s).len() > 0,
        trim(s)[0] == trim_start(s)[0],
{
    lemma_trim_start_stops(s);
    lemma_trim_end_first(trim_start(s));
}

pub proof fn lemma_eq_ic_trans(a: Seq<u8>, b: Seq<u8>, c: Seq<u8>)
    requires
        eq_ic(a, b),
        eq_ic(b, c),
    ensures
        eq_ic(a, c),
{
    assert forall|i: int| 0 <= i < a.len() implies lower(#[trigger] a[i]) == lower(c[i]) by {
        assert(lower(a[i]) == lower(b[i]));
        assert(lower(b[i]) == lower(c[i]));
    }
}

/// Whether two strings start with the same whitespace character depends
/// only on the bytes that character takes.
proof fn lemma_ws_fwd_same_front(s: Seq<u8>, t: Seq<u8>)
    requires
        ws_len_fwd(s) > 0,
        t.len() >= ws_len_fwd(s),
        forall|k: int| 0 <= k < ws_len_fwd(s) ==> t[k] == s[k],
    ensures
        ws_len_fwd(t) == ws_len_fwd(s),
{
    assert(t[0] == s[0]);
    if ws_len_fwd(s) >= 2 {
        assert(t[1] == s[1]);
    }
    if ws_len_fwd(s) >= 3 {
        assert(t[2] == s[2]);
    }
}

/// A prefix of a string that does not start with whitespace does not
/// either.
proof fn lemma_ws_fwd_prefix(z: Seq<u8>, y: Seq<u8>)
    requires
        ws_len_fwd(z) == 0,
        y.len() <= z.len(),
        forall|k: int| 0 <= k < y.len() ==> y[k] == z[k],
    ensures
        ws_len_fwd(y) == 0,
{
    if y.len() >= 1 {
        assert(y[0] == z[0]);
    }
    if y.len() >= 2 {
        assert(y[1] == z[1]);
    }
    if y.len() >= 3 {
        assert(y[2] == z[2]);
    }
}

pub proof fn lemma_trim_end_stops(s: Seq<u8>)
    ensures
        ws_len_bwd(trim_end(s)) == 0,
    decreases s.len(),
{
    if ws_len_bwd(s) > 0 {
        lemma_trim_end_stops(s.take(s.len() - ws_len_bwd(s)));
    }
}

/// The whitespace `trim_start` takes off the front of `s`, put in front of
/// anything else, is taken off again.
pub proof fn lemma_trim_start_gap(s: Seq<u8>, y: Seq<u8>)
    ensures
        trim_start(s.take(s.len() - trim_start(s).len()) + y) == trim_start(y),
    decreases s.len(),
{
    lemma_trim_start_suffix(s);
    let w = ws_len_fwd(s);
    if w > 0 {
        let s1 = s.skip(w);
        lemma_trim_start_gap(s1, y);
        lemma_trim_start_suffix(s1);
        let g = s.take(s.len() - trim_start(s).len());
        let g1 = s1.take(s1.len() - trim_start(s1).len());
        assert(g =~= s.take(w) + g1);
        let t = g + y;
        lemma_ws_fwd_same_front(s, t);
        assert(t.skip(w) =~= g1 + y);
    } else {
        assert(s.take(0) + y =~= y);
    }
}

/// `trim` is idempotent.
pub proof fn lemma_trim_idem(s: Seq<u8>)
    ensures
        trim(trim(s)) == trim(s),
{
    let z = trim_start(s);
    lemma_trim_start_stops(s);
    let y = trim_end(z);
    lemma_trim_end_prefix(z);
    lemma_ws_fwd_prefix(z, y);
    lemma_trim_end_stops(z);
}

/// A string that is its own trim does not start with whitespace.
pub proof fn lemma_trimmed_start(k: Seq<u8>)
    requires
        trim(k) == k,
    ensures
        trim_start(k) == k,
{
    lemma_trim_start_suffix(k);
    lemma_trim_end_prefix(trim_start(k));
    assert(k.skip(0) =~= k);
}

/// A `\r` at the end changes nothing `trim` or `trim_start` see but itself.
pub proof fn lemma_trim_cr(x: Seq<u8>)
    ensures
        trim(x.push(0x0D)) == trim(x),
        trim_start(x).len() > 0 ==> trim_start(x.push(0x0D)) == trim_start(x).push(0x0D),
        trim_start(x).len() == 0 ==> trim_start(x.push(0x0D)).len() == 0,
{
    let c: Seq<u8> = seq![0x0Du8];
    assert(x.push(0x0D) =~= x + c);
    if trim_start(x).len() > 0 {
        lemma_trim_start_concat(x, c);
        let z = trim_start(x);
        assert(z.push(0x0D) =~= z + c);
        assert(ws_len_bwd(z + c) == 1);
        assert((z + c).take((z + c).len() - 1) =~= z);
    } else {
        lemma_trim_start_ws_prefix(x, c);
        assert(ws_len_fwd(c) == 1);
        assert(c.skip(1) =~= Seq::<u8>::empty());
        assert(trim_start(c) == trim_start(Seq::<u8>::empty()));
    }
}

// ---------------------------------------------------------------------------
// Executable counterparts
// ---------------------------------------------------------------------------

pub fn is_ascii_ws_exec(b: u8) -> (r: bool)
    ensures
        r == is_ascii_ws(b),
{
    b == 0x09 || b == 0x0A || b == 0x0B || b == 0x0C || b == 0x0D || b == 0x20
}

/// Length of the whitespace character at `s[i..hi]`, or 0.
pub fn ws_len_at(s: &[u8], i: usize, hi: usize) -> (r: usize)
    requires
        i <= hi <= s@.len(),
    ensures
        r == ws_len_fwd(s@.subrange(i as int, hi as int)),
        r <= 3,
{
    let ghost t = s@.subrange(i as int, hi as int);
    let n = hi - i;
    if n >= 1 && is_ascii_ws_exec(s[i]) {
        1
    } else if n >= 2 && s[i] == 0xC2 && (s[i + 1] == 0x85 || s[i + 1] == 0xA0) {
        2
    } else if n >= 3 && s[i] == 0xE1 && s[i + 1] == 0x9A && s[i + 2] == 0x80 {
        3
    } else if n >= 3 && s[i] == 0xE2 && s[i + 1] == 0x80 && ((0x80 <= s[i + 2] && s[i + 2] <= 0x8A)
        || s[i + 2] == 0xA8 || s[i + 2] == 0xA9 || s[i + 2] == 0xAF) {
        3
    } else if n >= 3 && s[i] == 0xE2 && s[i + 1] == 0x81 && s[i + 2] == 0x9F {
        3
    } else if n >= 3 && s[i] == 0xE3 && s[i + 1] == 0x80 && s[i + 2] == 0x80 {
        3
    } else {
        0
    }
}

/// Length of the whitespace character that `s[lo..j]` ends with, or 0.
pub fn ws_len_before(s: &[u8], lo: usize, j: usize) -> (r: usize)
    requires
        lo <= j <= s@.len(),
    ensures
        r == ws_len_bwd(s@.subrange(lo as int, j as int)),
        r <= 3,
        r <= j - lo,
{
    let n = j - lo;
    if n >= 1 && is_ascii_ws_exec(s[j - 1]) {
        1
    } else if n >= 2 && s[j - 2] == 0xC2 && (s[j - 1] == 0x85 || s[j - 1] == 0xA0) {
        2
    } else if n >= 3 && s[j - 3] == 0xE1 && s[j - 2] == 0x9A && s[j - 1] == 0x80 {
        3
    } else if n >= 3 && s[j - 3] == 0xE2 && s[j - 2] == 0x80 && ((0x80 <= s[j - 1] && s[j - 1]
        <= 0x8A) || s[j - 1] == 0xA8 || s[j - 1] == 0xA9 || s[j - 1] == 0xAF) {
        3
    } else if n >= 3 && s[j - 3] == 0xE2 && s[j - 2] == 0x81 && s[j - 1] == 0x9F {
        3
    } else if n >= 3 && s[j - 3] == 0xE3 && s[j - 2] == 0x80 && s[j - 1] == 0x80 {
        3
    } else {
        0
    }
}

/// Start of `trim_start(s[lo..hi])`, as an index into `s`.
pub fn trim_start_at(s: &[u8], lo: usize, hi: usize) -> (r: usize)
    requires
        lo <= hi <= s@.len(),
    ensures
        lo <= r <= hi,
        s@.subrange(r as int, hi as int) == trim_start(s@.subrange(lo as int, hi as int)),
{
    let mut i = lo;
    while i < hi
        invariant
            lo <= i <= hi <= s@.len(),
            trim_start(s@.subrange(i as int, hi as int)) == trim_start(
                s@.subrange(lo as int, hi as int),
            ),
        decreases hi - i,
    {
        let k = ws_len_at(s, i, hi);
        if k == 0 {
            return i;
        }
        proof {
            let t = s@.subrange(i as int, hi as int);
            assert(t.skip(k as int) =~= s@.subrange(i + k, hi as int));
        }
        i = i + k;
    }
    proof {
        assert(s@.subrange(i as int, hi as int).len() == 0);
    }
    i
}

/// End of `trim_end(s[lo..hi])`, as an index into `s`.
pub fn trim_end_at(s: &[u8], lo: usize, hi: usize) -> (r: usize)
    requires
        lo <= hi <= s@.len(),
    ensures
        lo <= r <= hi,
        s@.subrange(lo as int, r as int) == trim_end(s@.subrange(lo as int, hi as int)),
{
    let mut j = hi;
    while j > lo
        invariant
            lo <= j <= hi <= s@.len(),
            trim_end(s@.subrange(lo as int, j as int)) == trim_end(
                s@.subrange(lo as int, hi as int),
            ),
        decreases j - lo,
    {
        let k = ws_len_before(s, lo, j);
        if k == 0 {
            return j;
        }
        proof {
            let t = s@.subrange(lo as int, j as int);
            assert(t.take(t.len() - k) =~= s@.subrange(lo as int, j - k));
        }
        j = j - k;
    }
    proof {
        assert(s@.subrange(lo as int, j as int).len() == 0);
    }
    j
}

/// `trim(s[lo..hi])` as a pair of indices into `s`.
pub fn trim_at(s: &[u8], lo: usize, hi: usize) -> (r: (usize, usize))
    requires
        lo <= hi <= s@.len(),
    ensures
        lo <= r.0 <= r.1 <= hi,
        s@.subrange(r.0 as int, r.1 as int) == trim(s@.subrange(lo as int, hi as int)),
{
    let a = trim_start_at(s, lo, hi);
    let b = trim_end_at(s, a, hi);
    (a, b)
}

pub fn lower_exec(b: u8) -> (r: u8)
    ensures
        r == lower(b),
{
    if 0x41 <= b && b <= 0x5A {
        b + 32
    } else {
        b
    }
}

/// `s[lo..hi].eq_ignore_ascii_case(t)`.
pub fn eq_ic_at(s: &[u8], lo: usize, hi: usize, t: &[u8]) -> (r: bool)
    requires
        lo <= hi <= s@.len(),
    ensures
        r == eq_ic(s@.subrange(lo as int, hi as int), t@),
{
    if hi - lo != t.len() {
        return false;
    }
    let mut i: usize = 0;
    while i < t.len()
        invariant
            hi - lo == t@.len(),
            lo <= hi <= s@.len(),
            0 <= i <= t@.len(),
            forall|j: int| 0 <= j < i ==> lower(#[trigger] s@[lo + j]) == lower(t@[j]),
        decreases t@.len() - i,
    {
        if lower_exec(s[lo + i]) != lower_exec(t[i]) {
            proof {
                let u = s@.subrange(lo as int, hi as int);
                assert(u[i as int] == s@[lo + i]);
            }
            return false;
        }
        i = i + 1;
    }
    proof {
        let u = s@.subrange(lo as int, hi as int);
        assert forall|j: int| 0 <= j < u.len() implies lower(#[trigger] u[j]) == lower(t@[j]) by {
            assert(u[j] == s@[lo + j]);
        }
    }
    true
}

/// `a.eq_ignore_ascii_case(b)` on whole slices.
pub fn eq_ic_exec(a: &[u8], b: &[u8]) -> (r: bool)
    ensures
        r == eq_ic(a@, b@),
{
    proof {
        assert(a@.subrange(0, a@.len() as int) =~= a@);
    }
    eq_ic_at(a, 0, a.len(), b)
}

/// Index of the first `b` in `s[lo..hi]`, as an index into `s`; `hi` when absent.
pub fn find_byte(s: &[u8], lo: usize, hi: usize, b: u8) -> (r: usize)
    requires
        lo <= hi <= s@.len(),
    ensures
        lo <= r <= hi,
        r - lo == first_index(s@.subrange(lo as int, hi as int), b),
        forall|j: int| lo <= j < r ==> s@[j] != b,
        r < hi ==> s@[r as int] == b,
{
    let mut i = lo;
    while i < hi && s[i] != b
        invariant
            lo <= i <= hi <= s@.len(),
            forall|j: int| lo <= j < i ==> s@[j] != b,
        decreases hi - i,
    {
        i = i + 1;
    }
    proof {
        let t = s@.subrange(lo as int, hi as int);
        assert forall|j: int| 0 <= j < i - lo implies t[j] != b by {
            assert(t[j] == s@[lo + j]);
        }
        if i < hi {
            assert(t[i - lo] == s@[i as int]);
        }
        lemma_first_index_unique(t, b, i - lo);
    }
    i
}

/// Append `src[lo..hi]` to `out`.
pub fn push_range(out: &mut Vec<u8>, src: &[u8], lo: usize, hi: usize)
    requires
        lo <= hi <= src@.len(),
    ensures
        final(out)@ == old(out)@ + src@.subrange(lo as int, hi as int),
{
    let ghost start = out@;
    let mut i = lo;
    while i < hi
        invariant
            lo <= i <= hi <= src@.len(),
            out@ == start + src@.subrange(lo as int, i as int),
        decreases hi - i,
    {
        out.push(src[i]);
        proof {
            assert(src@.subrange(lo as int, i + 1) =~= src@.subrange(lo as int, i as int).push(
                src@[i as int],
            ));
        }
        i = i + 1;
    }
}

/// Append all of `src` to `out`.
pub fn push_all(out: &mut Vec<u8>, src: &[u8])
    ensures
        final(out)@ == old(out)@ + src@,
{
    push_range(out, src, 0, src.len());
    proof {
        assert(src@.subrange(0, src@.len() as int) =~= src@);
    }
}

// ---------------------------------------------------------------------------
// Integers, with the rules of Rust's `FromStr`
// ---------------------------------------------------------------------------

pub open spec fn is_digit(b: u8) -> bool {
    0x30 <= b && b <= 0x39
}

pub open spec fn all_digits(s: Seq<u8>) -> bool {
    forall|i: int| 0 <= i < s.len() ==> is_digit(#[trigger] s[i])
}

/// The value of a run of ASCII digits.
pub open spec fn digits_val(s: Seq<u8>) -> nat
    decreases s.len(),
{
    if s.len() == 0 {
        0
    } else {
        digits_val(s.drop_last()) * 10 + (s.last() - 0x30) as nat
    }
}

/// `"<digits>"` or `"+<digits>"` as an unsigned number, `None` when that is
/// not what the text is: Rust's unsigned `FromStr` before the range check.
pub open spec fn unsigned_val(s: Seq<u8>) -> Option<nat> {
    let body = if s.len() > 0 && s[0] == 0x2B {
        s.skip(1)
    } else {
        s
    };
    if body.len() > 0 && all_digits(body) {
        Some(digits_val(body))
    } else {
        None
    }
}

/// Rust's signed `FromStr` before the range check: an optional `+` or `-`,
/// then at least one digit.
pub open spec fn signed_val(s: Seq<u8>) -> Option<int> {
    if s.len() > 0 && s[0] == 0x2D {
        let body = s.skip(1);
        if body.len() > 0 && all_digits(body) {
            Some(-(digits_val(body) as int))
        } else {
            None
        }
    } else {
        match unsigned_val(s) {
            Some(v) => Some(v as int),
            None => None,
        }
    }
}

/// `s.parse::<u32>().ok()`.
pub open spec fn parse_u32(s: Seq<u8>) -> Option<u32> {
    match unsigned_val(s) {
        Some(v) => if v <= u32::MAX {
            Some(v as u32)
        } else {
            None
        },
        None => None,
    }
}

/// `s.parse::<i32>().ok()`.
pub open spec fn parse_i32(s: Seq<u8>) -> Option<i32> {
    match signed_val(s) {
        Some(v) => if i32::MIN <= v <= i32::MAX {
            Some(v as i32)
        } else {
            None
        },
        None => None,
    }
}

pub proof fn lemma_digits_val_mono(s: Seq<u8>, k: int)
    requires
        0 <= k <= s.len(),
        all_digits(s),
    ensures
        digits_val(s.take(k)) <= digits_val(s),
    decreases s.len() - k,
{
    if k < s.len() {
        let t = s.take(k + 1);
        assert(t.drop_last() =~= s.take(k));
        lemma_digits_val_mono(s, k + 1);
    } else {
        assert(s.take(k) =~= s);
    }
}

/// The largest magnitude the integer reader keeps; anything larger is out of
/// range for every integer type the parsers ask for.
pub open spec fn mag_cap() -> nat {
    0x1_0000_0000_0000_0000
}

/// Digits of `s[lo..hi]` accumulated, stopping once the value passes the cap.
/// Returns `None` exactly when the value is over it.
fn digits_upto(s: &[u8], lo: usize, hi: usize) -> (r: Option<u128>)
    requires
        lo <= hi <= s@.len(),
        all_digits(s@.subrange(lo as int, hi as int)),
    ensures
        match r {
            Some(v) => v == digits_val(s@.subrange(lo as int, hi as int)) && v <= mag_cap(),
            None => digits_val(s@.subrange(lo as int, hi as int)) > mag_cap(),
        },
{
    let cap: u128 = 0x1_0000_0000_0000_0000;
    let mut acc: u128 = 0;
    let mut i = lo;
    while i < hi
        invariant
            lo <= i <= hi <= s@.len(),
            all_digits(s@.subrange(lo as int, hi as int)),
            cap == mag_cap(),
            acc == digits_val(s@.subrange(lo as int, i as int)),
            acc <= cap,
        decreases hi - i,
    {
        let ghost t = s@.subrange(lo as int, i + 1);
        proof {
            assert(t.drop_last() =~= s@.subrange(lo as int, i as int));
            assert(s@.subrange(lo as int, hi as int)[i - lo] == s@[i as int]);
        }
        let d = (s[i] - 0x30) as u128;
        let next = acc * 10 + d;
        if next > cap {
            proof {
                let full = s@.subrange(lo as int, hi as int);
                assert(full.take(i + 1 - lo) =~= t);
                lemma_digits_val_mono(full, i + 1 - lo);
            }
            return None;
        }
        acc = next;
        i = i + 1;
    }
    Some(acc)
}

/// Whether every byte of `s[lo..hi]` is an ASCII digit.
fn all_digits_at(s: &[u8], lo: usize, hi: usize) -> (r: bool)
    requires
        lo <= hi <= s@.len(),
    ensures
        r == all_digits(s@.subrange(lo as int, hi as int)),
{
    let mut i = lo;
    while i < hi
        invariant
            lo <= i <= hi <= s@.len(),
            forall|j: int| lo <= j < i ==> is_digit(#[trigger] s@[j]),
        decreases hi - i,
    {
        if !(0x30 <= s[i] && s[i] <= 0x39) {
            proof {
                assert(s@.subrange(lo as int, hi as int)[i - lo] == s@[i as int]);
            }
            return false;
        }
        i = i + 1;
    }
    proof {
        let t = s@.subrange(lo as int, hi as int);
        assert forall|j: int| 0 <= j < t.len() implies is_digit(#[trigger] t[j]) by {
            assert(t[j] == s@[lo + j]);
        }
    }
    true
}

/// `s[lo..hi]` read as Rust's signed integer syntax. `Some` carries the value
/// when its magnitude is at most 2^64; `None` covers both bad syntax and
/// magnitudes past that, which no parser here can accept anyway.
pub fn parse_int_at(s: &[u8], lo: usize, hi: usize, signed: bool) -> (r: Option<i128>)
    requires
        lo <= hi <= s@.len(),
    ensures
        ({
            let t = s@.subrange(lo as int, hi as int);
            let want = if signed {
                signed_val(t)
            } else {
                match unsigned_val(t) {
                    Some(v) => Some(v as int),
                    None => None,
                }
            };
            match r {
                Some(v) => want == Some(v as int) && -mag_cap() <= v <= mag_cap(),
                None => match want {
                    Some(v) => v > mag_cap() || v < -mag_cap(),
                    None => true,
                },
            }
        }),
{
    let ghost t = s@.subrange(lo as int, hi as int);
    let neg = signed && lo < hi && s[lo] == 0x2D;
    let start = if lo < hi && (s[lo] == 0x2B || neg) {
        lo + 1
    } else {
        lo
    };
    proof {
        if lo < hi {
            assert(t[0] == s@[lo as int]);
        }
        if start == lo + 1 {
            assert(t.skip(1) =~= s@.subrange(start as int, hi as int));
        } else {
            assert(t =~= s@.subrange(start as int, hi as int));
        }
    }
    if start == hi {
        return None;
    }
    if !all_digits_at(s, start, hi) {
        return None;
    }
    match digits_upto(s, start, hi) {
        Some(v) => {
            if neg {
                Some(-(v as i128))
            } else {
                Some(v as i128)
            }
        },
        None => None,
    }
}

/// `s[lo..hi].parse::<u32>().ok()`.
pub fn parse_u32_at(s: &[u8], lo: usize, hi: usize) -> (r: Option<u32>)
    requires
        lo <= hi <= s@.len(),
    ensures
        r == parse_u32(s@.subrange(lo as int, hi as int)),
{
    match parse_int_at(s, lo, hi, false) {
        Some(v) => if 0 <= v && v <= 0xFFFF_FFFF {
            Some(v as u32)
        } else {
            None
        },
        None => None,
    }
}

/// `s[lo..hi].parse::<i32>().ok()`.
pub fn parse_i32_at(s: &[u8], lo: usize, hi: usize) -> (r: Option<i32>)
    requires
        lo <= hi <= s@.len(),
    ensures
        r == parse_i32(s@.subrange(lo as int, hi as int)),
{
    match parse_int_at(s, lo, hi, true) {
        Some(v) => if -0x8000_0000 <= v && v <= 0x7FFF_FFFF {
            Some(v as i32)
        } else {
            None
        },
        None => None,
    }
}

/// Whether `s[lo..lo + needle.len()]` is `needle`.
pub fn matches_at(s: &[u8], lo: usize, needle: &[u8]) -> (r: bool)
    requires
        lo <= s@.len(),
    ensures
        r == (lo + needle@.len() <= s@.len() && s@.subrange(lo as int, lo + needle@.len()) == needle@),
{
    if needle.len() > s.len() - lo {
        return false;
    }
    let mut i: usize = 0;
    while i < needle.len()
        invariant
            lo + needle.len() <= s.len(),
            lo + needle@.len() <= s@.len(),
            0 <= i <= needle@.len(),
            forall|j: int| 0 <= j < i ==> s@[lo + j] == needle@[j],
        decreases needle@.len() - i,
    {
        if s[lo + i] != needle[i] {
            proof {
                assert(s@.subrange(lo as int, lo + needle@.len())[i as int] != needle@[i as int]);
            }
            return false;
        }
        i = i + 1;
    }
    assert(s@.subrange(lo as int, lo + needle@.len()) =~= needle@);
    true
}

/// `str::contains` on bytes.
pub fn contains_sub(hay: &[u8], needle: &[u8]) -> (r: bool)
    ensures
        r == has_sub(hay@, needle@),
{
    if needle.len() > hay.len() {
        return false;
    }
    let last = hay.len() - needle.len();
    let mut i: usize = 0;
    loop
        invariant
            needle@.len() <= hay@.len(),
            last == hay@.len() - needle@.len(),
            0 <= i <= last,
            forall|j: int| 0 <= j < i ==> #[trigger] hay@.subrange(j, j + needle@.len()) != needle@,
        decreases last - i,
    {
        if matches_at(hay, i, needle) {
            return true;
        }
        if i == last {
            return false;
        }
        i = i + 1;
    }
}

/// `str::starts_with` on bytes.
pub fn starts_with(s: &[u8], needle: &[u8]) -> (r: bool)
    ensures
        r == has_prefix(s@, needle@),
{
    let r = matches_at(s, 0, needle);
    proof {
        if needle@.len() <= s@.len() {
            assert(s@.subrange(0, needle@.len() as int) =~= s@.take(needle@.len() as int));
        }
    }
    r
}

/// `str::ends_with` on bytes.
pub fn ends_with(s: &[u8], needle: &[u8]) -> (r: bool)
    ensures
        r == has_suffix(s@, needle@),
{
    if needle.len() > s.len() {
        return false;
    }
    let r = matches_at(s, s.len() - needle.len(), needle);
    proof {
        assert(s@.subrange(s@.len() - needle@.len(), s@.len() as int) =~= s@.skip(s@.len() - needle@.len()));
    }
    r
}

} // verus!
