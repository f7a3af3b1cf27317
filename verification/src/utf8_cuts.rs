//! Well-formed UTF-8 survives every cut the ini reader makes: splitting at an
//! ASCII byte, trimming Unicode whitespace, and gluing well-formed pieces back
//! together. These are the facts that let the crate hand a `String` back for
//! any piece of a `&str` it took apart as bytes.

use vstd::prelude::*;
use vstd::utf8::*;

use crate::text::{trim, trim_end, trim_start, ws_len_bwd, ws_len_fwd};

verus! {

/// Index `i` of `s` starts a character, or is the end: the byte there is not
/// a continuation byte.
pub open spec fn cut(s: Seq<u8>, i: int) -> bool {
    0 <= i <= s.len() && (i == s.len() || !is_continuation_byte(s[i]))
}

pub proof fn lemma_cut_zero(s: Seq<u8>)
    requires
        valid_utf8(s),
    ensures
        cut(s, 0),
{
    if s.len() > 0 {
        assert(valid_first_scalar(s));
    }
}

pub proof fn lemma_cut_boundary(s: Seq<u8>, i: int)
    requires
        valid_utf8(s),
        cut(s, i),
    ensures
        is_char_boundary(s, i),
{
    is_char_boundary_start_end_of_seq(s);
    if i < s.len() {
        is_char_boundary_iff_not_is_continuation_byte(s, i);
    }
}

/// The bytes between two cuts of well-formed text are well-formed.
pub proof fn lemma_valid_sub(s: Seq<u8>, i: int, j: int)
    requires
        valid_utf8(s),
        i <= j,
        cut(s, i),
        cut(s, j),
    ensures
        valid_utf8(s.subrange(i, j)),
{
    lemma_cut_boundary(s, i);
    valid_utf8_split(s, i);
    let t = s.subrange(i, s.len() as int);
    assert(cut(t, j - i));
    lemma_cut_boundary(t, j - i);
    valid_utf8_split(t, j - i);
    assert(t.subrange(0, j - i) =~= s.subrange(i, j));
}

/// Right after an ASCII byte of well-formed text is a cut.
pub proof fn lemma_cut_after_ascii(s: Seq<u8>, p: int)
    requires
        valid_utf8(s),
        0 <= p < s.len(),
        s[p] < 0x80,
    ensures
        cut(s, p + 1),
{
    assert(cut(s, p));
    lemma_cut_boundary(s, p);
    valid_utf8_split(s, p);
    let t = s.subrange(p, s.len() as int);
    assert(t[0] == s[p]);
    assert(length_of_first_scalar(t) == 1);
    let u = pop_first_scalar(t);
    assert(valid_utf8(u));
    if p + 1 < s.len() {
        assert(u.len() > 0);
        assert(valid_first_scalar(u));
        assert(u[0] == s[p + 1]);
    }
}

/// A leading whitespace character is exactly the text's first scalar.
proof fn lemma_ws_fwd_is_first_scalar(s: Seq<u8>)
    requires
        valid_utf8(s),
        ws_len_fwd(s) > 0,
    ensures
        s.len() > 0,
        valid_first_scalar(s),
        length_of_first_scalar(s) == ws_len_fwd(s),
        pop_first_scalar(s) == s.skip(ws_len_fwd(s)),
{
    assert(s.len() > 0);
    assert(valid_first_scalar(s));
    assert(pop_first_scalar(s) =~= s.skip(ws_len_fwd(s)));
}

/// Trimming the front of well-formed text cuts it at a character, so both
/// the whitespace run and the rest are well-formed.
pub proof fn lemma_trim_start_cut(s: Seq<u8>)
    requires
        valid_utf8(s),
    ensures
        ({
            let k = s.len() - trim_start(s).len();
            &&& 0 <= k <= s.len()
            &&& trim_start(s) == s.skip(k)
            &&& cut(s, k)
            &&& valid_utf8(trim_start(s))
            &&& valid_utf8(s.take(k))
        }),
    decreases s.len(),
{
    lemma_cut_zero(s);
    let w = ws_len_fwd(s);
    if w > 0 {
        lemma_ws_fwd_is_first_scalar(s);
        let r = s.skip(w);
        assert(valid_utf8(r));
        lemma_trim_start_cut(r);
        let k2 = r.len() - trim_start(r).len();
        let k = s.len() - trim_start(s).len();
        assert(trim_start(s) == trim_start(r));
        assert(k == w + k2);
        assert(r.skip(k2) =~= s.skip(k));
        assert(cut(s, k)) by {
            if k < s.len() {
                assert(s[k] == r[k2]);
            }
        }
        lemma_valid_sub(s, 0, k);
        assert(s.take(k) =~= s.subrange(0, k));
        lemma_valid_sub(s, k, s.len() as int);
        assert(s.skip(k) =~= s.subrange(k, s.len() as int));
    } else {
        assert(s.skip(0) =~= s);
        assert(s.take(0) =~= Seq::<u8>::empty());
    }
}

/// Trimming the end of well-formed text leaves it well-formed.
pub proof fn lemma_trim_end_valid(s: Seq<u8>)
    requires
        valid_utf8(s),
    ensures
        valid_utf8(trim_end(s)),
    decreases s.len(),
{
    let w = ws_len_bwd(s);
    if w > 0 {
        let n = s.len() as int;
        assert(cut(s, n - w));
        lemma_cut_zero(s);
        lemma_valid_sub(s, 0, n - w);
        assert(s.take(n - w) =~= s.subrange(0, n - w));
        lemma_trim_end_valid(s.take(n - w));
    }
}

pub proof fn lemma_trim_valid(s: Seq<u8>)
    requires
        valid_utf8(s),
    ensures
        valid_utf8(trim(s)),
{
    lemma_trim_start_cut(s);
    lemma_trim_end_valid(trim_start(s));
}

/// A prefix up to an ASCII byte, and the rest after it, are well-formed.
pub proof fn lemma_split_at_ascii(s: Seq<u8>, p: int)
    requires
        valid_utf8(s),
        0 <= p < s.len(),
        s[p] < 0x80,
    ensures
        valid_utf8(s.take(p)),
        valid_utf8(s.skip(p + 1)),
{
    lemma_cut_zero(s);
    lemma_cut_after_ascii(s, p);
    lemma_valid_sub(s, 0, p);
    lemma_valid_sub(s, p + 1, s.len() as int);
    assert(s.take(p) =~= s.subrange(0, p));
    assert(s.skip(p + 1) =~= s.subrange(p + 1, s.len() as int));
}

/// ASCII bytes are well-formed on their own.
pub proof fn lemma_ascii_valid(s: Seq<u8>)
    requires
        forall|i: int| 0 <= i < s.len() ==> #[trigger] s[i] < 0x80,
    ensures
        valid_utf8(s),
    decreases s.len(),
{
    if s.len() > 0 {
        assert(valid_first_scalar(s));
        assert(pop_first_scalar(s) =~= s.skip(1));
        lemma_ascii_valid(s.skip(1));
    }
}

/// Encoding respects concatenation.
pub proof fn lemma_encode_concat(a: Seq<char>, b: Seq<char>)
    ensures
        encode_utf8(a + b) == encode_utf8(a) + encode_utf8(b),
    decreases a.len(),
{
    if a.len() == 0 {
        assert(a + b =~= b);
        assert(encode_utf8(a) =~= Seq::<u8>::empty());
        assert(encode_utf8(a) + encode_utf8(b) =~= encode_utf8(b));
    } else {
        assert((a + b).drop_first() =~= a.drop_first() + b);
        assert((a + b)[0] == a[0]);
        lemma_encode_concat(a.drop_first(), b);
        assert(encode_utf8(a + b) =~= encode_utf8(a) + encode_utf8(b));
    }
}

} // verus!
