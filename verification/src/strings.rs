//! Owned text built from bytes: the one place where the crate turns a byte
//! sequence it assembled into a `String`, and the ASCII facts that make that
//! conversion total for the text the crate writes.

use vstd::prelude::*;
use vstd::string::StringSliceAdditionalSpecFns;
use vstd::utf8::*;

verus! {

/// `String::from_utf8`, with the error dropped.
///
/// The standard library documents that the call succeeds exactly when the
/// bytes are well-formed UTF-8 and that the `String` then owns those very
/// bytes; `valid_utf8` and `decode_utf8` are vstd's statement of the same
/// encoding rules. Nothing else is claimed.
#[verifier::external_body]
fn utf8_to_string(v: Vec<u8>) -> (r: Option<String>)
    ensures
        r is Some <==> valid_utf8(v@),
        r matches Some(s) ==> s@ == decode_utf8(v@),
{
    match String::from_utf8(v) {
        Ok(s) => Some(s),
        Err(_) => None,
    }
}

/// Every byte is ASCII.
pub open spec fn all_ascii(v: Seq<u8>) -> bool {
    forall|i: int| 0 <= i < v.len() ==> #[trigger] v[i] < 128
}

/// The characters an ASCII byte sequence spells.
pub open spec fn ascii_str(v: Seq<u8>) -> Seq<char> {
    Seq::new(v.len(), |i: int| v[i] as char)
}

pub proof fn lemma_ascii_encode(v: Seq<u8>)
    requires
        all_ascii(v),
    ensures
        is_ascii_chars(ascii_str(v)),
        encode_utf8(ascii_str(v)) == v,
        valid_utf8(v),
        decode_utf8(v) == ascii_str(v),
{
    let c = ascii_str(v);
    assert forall|i: int| 0 <= i < c.len() implies '\0' <= #[trigger] c[i] <= '\u{7f}' by {
        let b = v[i];
        assert(b < 128);
        assert((b as char) as u32 == b as u32);
    }
    is_ascii_chars_encode_utf8(c);
    let e = encode_utf8(c);
    assert forall|i: int| 0 <= i < v.len() implies e[i] == v[i] by {
        let b = v[i];
        assert(c[i] == b as char);
        assert((b as char) as u8 == b);
    }
    assert(e =~= v);
    encode_utf8_valid_utf8(c);
    encode_utf8_decode_utf8(c);
}

/// An owned `String` holding exactly the given ASCII bytes.
pub fn ascii_string(v: Vec<u8>) -> (s: String)
    requires
        all_ascii(v@),
    ensures
        s@ == ascii_str(v@),
{
    proof {
        lemma_ascii_encode(v@);
    }
    match utf8_to_string(v) {
        Some(s) => s,
        None => {
            proof {
                assert(false);
            }
            String::new()
        },
    }
}

/// An owned `String` holding exactly the given UTF-8 bytes.
pub fn utf8_string(v: Vec<u8>) -> (s: String)
    requires
        valid_utf8(v@),
    ensures
        s@ == decode_utf8(v@),
        encode_utf8(s@) == v@,
{
    let ghost bytes = v@;
    match utf8_to_string(v) {
        Some(s) => {
            proof {
                decode_utf8_encode_utf8(bytes);
            }
            s
        },
        None => {
            proof {
                assert(false);
            }
            String::new()
        },
    }
}

/// Two strings spell the same characters exactly when their bytes agree.
pub proof fn lemma_bytes_eq_iff(a: Seq<char>, b: Seq<char>)
    ensures
        (encode_utf8(a) == encode_utf8(b)) <==> (a == b),
{
    encode_utf8_decode_utf8(a);
    encode_utf8_decode_utf8(b);
}

/// `a == b` on two string slices.
pub fn str_eq(a: &str, b: &str) -> (r: bool)
    ensures
        r == (a@ == b@),
{
    let x = a.as_bytes();
    let y = b.as_bytes();
    proof {
        lemma_bytes_eq_iff(a@, b@);
    }
    if x.len() != y.len() {
        return false;
    }
    let mut i: usize = 0;
    while i < x.len()
        invariant
            x.len() == y.len(),
            (x@ == y@) <==> (a@ == b@),
            0 <= i <= x.len(),
            forall|j: int| 0 <= j < i ==> x@[j] == y@[j],
        decreases x.len() - i,
    {
        if x[i] != y[i] {
            assert(x@[i as int] != y@[i as int]);
            assert(x@ != y@);
            return false;
        }
        i = i + 1;
    }
    assert(x@ =~= y@);
    true
}

/// `s`'s bytes appended to `out`.
pub fn push_str(out: &mut Vec<u8>, s: &str)
    ensures
        final(out)@ == old(out)@ + s.spec_bytes(),
{
    let b = s.as_bytes();
    let mut i: usize = 0;
    while i < b.len()
        invariant
            0 <= i <= b.len(),
            b@ == s.spec_bytes(),
            out@ == old(out)@ + b@.take(i as int),
        decreases b.len() - i,
    {
        out.push(b[i]);
        i = i + 1;
        assert(out@ =~= old(out)@ + b@.take(i as int));
    }
    assert(b@.take(b@.len() as int) =~= b@);
}

/// Decimal digits of `n`, most significant first, no sign, no padding.
pub open spec fn dec_spec(n: nat) -> Seq<u8>
    decreases n,
{
    if n < 10 {
        seq![(0x30 + n) as u8]
    } else {
        dec_spec(n / 10) + seq![(0x30 + n % 10) as u8]
    }
}

pub proof fn lemma_dec_ascii(n: nat)
    ensures
        all_ascii(dec_spec(n)),
        dec_spec(n).len() >= 1,
    decreases n,
{
    if n >= 10 {
        lemma_dec_ascii(n / 10);
    }
}

/// `{}` of an unsigned integer, appended to `out`.
pub fn push_dec(out: &mut Vec<u8>, n: u64)
    ensures
        final(out)@ == old(out)@ + dec_spec(n as nat),
    decreases n,
{
    if n >= 10 {
        push_dec(out, n / 10);
    }
    out.push(0x30 + (n % 10) as u8);
    proof {
        if n < 10 {
            assert(dec_spec(n as nat) =~= seq![(0x30 + n) as u8]);
        }
    }
}

/// The characters `{:?}` prints for a string slice: quoted, with the
/// standard library's escapes.
pub uninterp spec fn debug_str(s: Seq<char>) -> Seq<char>;

/// `format!("{v:?}")` of a string slice; what comes back is named
/// [`debug_str`] of the slice's characters, and nothing more is claimed of
/// it.
#[verifier::external_body]
pub(crate) fn debug_quoted(v: &str) -> (r: String)
    ensures
        r@ == debug_str(v@),
{
    format!("{v:?}")
}

/// The bytes of a string slice, as a spec value.
pub open spec fn lit(s: &str) -> Seq<u8> {
    s.spec_bytes()
}

/// An owned `String` holding a copy of the given UTF-8 bytes.
pub fn string_of(v: &[u8]) -> (s: String)
    requires
        valid_utf8(v@),
    ensures
        encode_utf8(s@) == v@,
{
    let mut out: Vec<u8> = Vec::new();
    crate::text::push_all(&mut out, v);
    assert(out@ =~= v@);
    utf8_string(out)
}

/// `{}` of a signed integer: a minus sign, then the magnitude's digits.
pub open spec fn idec_spec(n: int) -> Seq<u8> {
    if n < 0 {
        seq![0x2Du8] + dec_spec((-n) as nat)
    } else {
        dec_spec(n as nat)
    }
}

pub proof fn lemma_idec_ascii(n: int)
    ensures
        all_ascii(idec_spec(n)),
{
    if n < 0 {
        lemma_dec_ascii((-n) as nat);
        assert forall|i: int| 0 <= i < idec_spec(n).len() implies #[trigger] idec_spec(n)[i] < 128 by {
            if i > 0 {
                assert(idec_spec(n)[i] == dec_spec((-n) as nat)[i - 1]);
            }
        }
    } else {
        lemma_dec_ascii(n as nat);
    }
}

/// `n.to_string()` for an `i64`.
pub fn idec_string(n: i64) -> (r: String)
    ensures
        encode_utf8(r@) == idec_spec(n as int),
        r@ == ascii_str(idec_spec(n as int)),
{
    let mut out: Vec<u8> = Vec::new();
    if n < 0 {
        out.push(0x2D);
        let m: u64 = if n == i64::MIN { 9223372036854775808u64 } else { (-n) as u64 };
        push_dec(&mut out, m);
    } else {
        push_dec(&mut out, n as u64);
    }
    proof {
        assert(out@ =~= idec_spec(n as int));
        lemma_idec_ascii(n as int);
        lemma_ascii_encode(out@);
    }
    ascii_string(out)
}

pub open spec fn hex_upper_digit(d: int) -> u8 {
    if d < 10 {
        (0x30 + d) as u8
    } else {
        (0x41 + d - 10) as u8
    }
}

/// `format!("{v:X}")`: upper-case hex, no leading zeros.
pub open spec fn hex_upper(v: nat) -> Seq<u8>
    decreases v,
{
    if v < 16 {
        seq![hex_upper_digit(v as int)]
    } else {
        hex_upper(v / 16) + seq![hex_upper_digit((v % 16) as int)]
    }
}

pub fn push_hex_upper(out: &mut Vec<u8>, v: u64)
    ensures
        final(out)@ == old(out)@ + hex_upper(v as nat),
    decreases v,
{
    let d = (v % 16) as u8;
    if v >= 16 {
        push_hex_upper(out, v / 16);
    }
    let c = if d < 10 {
        0x30 + d
    } else {
        0x41 + d - 10
    };
    out.push(c);
    proof {
        if v >= 16 {
            assert(old(out)@ + hex_upper((v / 16) as nat) + seq![c] =~= old(out)@ + (hex_upper((v / 16) as nat) + seq![c]));
        } else {
            assert(old(out)@.push(c) =~= old(out)@ + seq![c]);
        }
    }
}

pub proof fn lemma_hex_upper_ascii(v: nat)
    ensures
        all_ascii(hex_upper(v)),
    decreases v,
{
    if v >= 16 {
        lemma_hex_upper_ascii(v / 16);
    }
}

/// `{v:0wX}`: upper-case hex, zero-padded to `w` digits.
pub open spec fn hex_pad(v: nat, w: nat) -> Seq<u8> {
    let h = hex_upper(v);
    if h.len() < w {
        Seq::new((w - h.len()) as nat, |i: int| 0x30u8) + h
    } else {
        h
    }
}

pub proof fn lemma_hex_pad_ascii(v: nat, w: nat)
    ensures
        all_ascii(hex_pad(v, w)),
{
    lemma_hex_upper_ascii(v);
    let h = hex_upper(v);
    let p = hex_pad(v, w);
    if h.len() < w {
        let z = Seq::new((w - h.len()) as nat, |i: int| 0x30u8);
        assert forall|i: int| 0 <= i < p.len() implies #[trigger] p[i] < 128 by {
            if i < z.len() {
                assert(p[i] == z[i]);
            } else {
                assert(p[i] == h[i - z.len()]);
            }
        }
    }
}

/// Text appended to well-formed text is still well-formed.
pub fn push_text(out: &mut Vec<u8>, s: &str)
    requires
        valid_utf8(old(out)@),
    ensures
        final(out)@ == old(out)@ + s.spec_bytes(),
        valid_utf8(final(out)@),
{
    push_str(out, s);
    proof {
        encode_utf8_valid_utf8(s@);
        valid_utf8_concat(old(out)@, s.spec_bytes());
    }
}

/// `{n}` appended, keeping the text well-formed.
pub fn push_dec_text(out: &mut Vec<u8>, n: u64)
    requires
        valid_utf8(old(out)@),
    ensures
        final(out)@ == old(out)@ + dec_spec(n as nat),
        valid_utf8(final(out)@),
{
    push_dec(out, n);
    proof {
        lemma_dec_ascii(n as nat);
        crate::utf8_cuts::lemma_ascii_valid(dec_spec(n as nat));
        valid_utf8_concat(old(out)@, dec_spec(n as nat));
    }
}

/// `{v:0wX}` appended, keeping the text well-formed.
pub fn push_hex_pad(out: &mut Vec<u8>, v: u64, w: usize)
    requires
        valid_utf8(old(out)@),
    ensures
        final(out)@ == old(out)@ + hex_pad(v as nat, w as nat),
        valid_utf8(final(out)@),
{
    let mut h: Vec<u8> = Vec::new();
    push_hex_upper(&mut h, v);
    assert(h@ =~= hex_upper(v as nat));
    if h.len() < w {
        let pad = w - h.len();
        let mut k: usize = 0;
        while k < pad
            invariant
                0 <= k <= pad,
                pad == w - h@.len(),
                out@ == old(out)@ + Seq::new(k as nat, |i: int| 0x30u8),
            decreases pad - k,
        {
            out.push(0x30);
            k = k + 1;
            assert(out@ =~= old(out)@ + Seq::new(k as nat, |i: int| 0x30u8));
        }
    }
    crate::text::push_all(out, h.as_slice());
    proof {
        assert(out@ =~= old(out)@ + hex_pad(v as nat, w as nat));
        lemma_hex_pad_ascii(v as nat, w as nat);
        crate::utf8_cuts::lemma_ascii_valid(hex_pad(v as nat, w as nat));
        valid_utf8_concat(old(out)@, hex_pad(v as nat, w as nat));
    }
}

/// A `String` of well-formed bytes.
pub fn text_string(v: Vec<u8>) -> (s: String)
    requires
        valid_utf8(v@),
    ensures
        encode_utf8(s@) == v@,
{
    utf8_string(v)
}

/// Parts joined with a separator.
pub open spec fn joined(parts: Seq<Seq<u8>>, sep: Seq<u8>) -> Seq<u8>
    decreases parts.len(),
{
    if parts.len() == 0 {
        seq![]
    } else if parts.len() == 1 {
        parts[0]
    } else {
        joined(parts.drop_last(), sep) + sep + parts.last()
    }
}

} // verus!
