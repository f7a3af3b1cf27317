//! What reading a rewritten file gives back: the laws that tie
//! [`crate::overlay::rewrite`] to [`crate::ini`], the reader every subsystem
//! uses.

use vstd::prelude::*;

use crate::ini::{
    classify, eol_bytes, header_name, join_rows, line_of, row_in_section, section_before,
    section_lines_spec, section_lines_upto, split_rows, Eol, SpecLine, SpecRow,
};
use crate::overlay::rewrite::{
    first_match, found_upto, hit_of, in_target, insert_at_upto, is_header, is_pair_body,
    lemma_first_match, lemma_join_rows_append, missing_upto, new_header_rows, out_row, out_rows,
    newline_of, pair_row, rewrite_body, rewrite_rows, rewrite_spec, seen_upto,
};
use crate::text::{
    eq_ic, first_index, lemma_eq_ic_symm, lemma_eq_ic_trans, lemma_first_index,
    lemma_first_index_unique, lemma_trim_cr, lemma_trim_first, lemma_trim_idem,
    lemma_trim_start_concat, lemma_trim_start_gap, lemma_trim_start_ws_prefix,
    lemma_trimmed_start, trim, trim_start, ws_len_fwd,
};

verus! {

// ---------------------------------------------------------------------------
// Rows written out and split again
// ---------------------------------------------------------------------------

pub open spec fn no_byte(s: Seq<u8>, b: u8) -> bool {
    forall|i: int| 0 <= i < s.len() ==> #[trigger] s[i] != b
}

/// A row that can be written out: no newline inside its body, and a body
/// to show for a row without a terminator.
pub open spec fn row_ok(r: SpecRow) -> bool {
    &&& no_byte(r.body, 0x0A)
    &&& (r.eol == Eol::Missing ==> r.body.len() > 0)
}

/// Rows that can be written out: only the last may lack a terminator.
pub open spec fn rows_ok(rows: Seq<SpecRow>) -> bool {
    &&& forall|i: int| 0 <= i < rows.len() ==> row_ok(#[trigger] rows[i])
    &&& forall|i: int| 0 <= i < rows.len() - 1 ==> (#[trigger] rows[i]).eol != Eol::Missing
}

/// How a row comes back from its bytes: a body ending in `\r` before a bare
/// `\n` is read as a shorter body ending in `\r\n`.
pub open spec fn norm_row(r: SpecRow) -> SpecRow {
    if r.eol == Eol::Lf && r.body.len() > 0 && r.body.last() == 0x0D {
        SpecRow { body: r.body.drop_last(), eol: Eol::CrLf }
    } else {
        r
    }
}

pub open spec fn norm_rows(rows: Seq<SpecRow>) -> Seq<SpecRow> {
    Seq::new(rows.len(), |i: int| norm_row(rows[i]))
}

proof fn lemma_join_one(r: SpecRow)
    ensures
        join_rows(seq![r]) == r.body + eol_bytes(r.eol),
{
    assert(seq![r].drop_last() =~= Seq::<SpecRow>::empty());
    assert(join_rows(Seq::<SpecRow>::empty()) =~= Seq::<u8>::empty());
    assert(Seq::<u8>::empty() + r.body =~= r.body);
}

/// Splitting the bytes of rows that can be written out gives the rows back,
/// up to the `\r` a bare `\n` turns into a `\r\n`.
pub proof fn lemma_split_join(rows: Seq<SpecRow>)
    requires
        rows_ok(rows),
    ensures
        split_rows(join_rows(rows)) == norm_rows(rows),
    decreases rows.len(),
{
    if rows.len() == 0 {
        assert(join_rows(rows) =~= Seq::<u8>::empty());
        assert(split_rows(Seq::<u8>::empty()) =~= norm_rows(rows));
    } else {
        let r0 = rows[0];
        let rest = rows.skip(1);
        assert(seq![r0] + rest =~= rows);
        lemma_join_rows_append(seq![r0], rest);
        lemma_join_one(r0);
        let s = join_rows(rows);
        let b = r0.body;
        assert(row_ok(r0));
        assert(rows_ok(rest)) by {
            assert forall|i: int| 0 <= i < rest.len() implies row_ok(#[trigger] rest[i]) by {
                assert(rest[i] == rows[i + 1]);
            }
            assert forall|i: int| 0 <= i < rest.len() - 1 implies (#[trigger] rest[i]).eol != Eol::Missing by {
                assert(rest[i] == rows[i + 1]);
            }
        }
        lemma_split_join(rest);
        assert(s == b + eol_bytes(r0.eol) + join_rows(rest));
        assert(norm_rows(rows) =~= seq![norm_row(r0)] + norm_rows(rest));
        match r0.eol {
            Eol::Missing => {
                assert(rows.len() == 1) by {
                    if rows.len() > 1 {
                        assert(rows[0].eol != Eol::Missing);
                    }
                }
                assert(rest.len() == 0);
                assert(join_rows(rest) =~= Seq::<u8>::empty());
                assert(s =~= b);
                lemma_first_index_unique(s, 0x0A, s.len() as int);
                assert(split_rows(s) =~= norm_rows(rows));
            },
            Eol::Lf => {
                let i: int = b.len() as int;
                assert(s[i] == 0x0A);
                assert forall|k: int| 0 <= k < i implies s[k] != 0x0A by {
                    assert(s[k] == b[k]);
                }
                lemma_first_index_unique(s, 0x0A, i);
                if i > 0 {
                    assert(s[i - 1] == b.last());
                }
                assert(s.take(i) =~= b);
                if i > 0 {
                    assert(s.take(i - 1) =~= b.drop_last());
                }
                assert(s.skip(i + 1) =~= join_rows(rest));
                assert(split_rows(s) =~= seq![norm_row(r0)] + norm_rows(rest));
            },
            Eol::CrLf => {
                let i: int = b.len() as int + 1;
                assert(s[i] == 0x0A);
                assert(s[i - 1] == 0x0D);
                assert forall|k: int| 0 <= k < i implies s[k] != 0x0A by {
                    if k < b.len() {
                        assert(s[k] == b[k]);
                    }
                }
                lemma_first_index_unique(s, 0x0A, i);
                assert(s.take(i - 1) =~= b);
                assert(s.skip(i + 1) =~= join_rows(rest));
                assert(split_rows(s) =~= seq![norm_row(r0)] + norm_rows(rest));
            },
        }
    }
}

/// The rows of any text can be written out again.
pub proof fn lemma_split_ok(s: Seq<u8>)
    ensures
        rows_ok(split_rows(s)),
    decreases s.len(),
{
    if s.len() > 0 {
        let i = first_index(s, 0x0A);
        lemma_first_index(s, 0x0A);
        if i < s.len() {
            let rest = s.skip(i + 1);
            lemma_split_ok(rest);
            let r0 = split_rows(s)[0];
            let rr = split_rows(rest);
            assert(split_rows(s) == seq![r0] + rr);
            assert(no_byte(r0.body, 0x0A)) by {
                assert forall|k: int| 0 <= k < r0.body.len() implies #[trigger] r0.body[k] != 0x0A by {
                    assert(r0.body[k] == s[k]);
                }
            }
            let all = split_rows(s);
            assert forall|k: int| 0 <= k < all.len() implies row_ok(#[trigger] all[k]) by {
                if k > 0 {
                    assert(all[k] == rr[k - 1]);
                }
            }
            assert forall|k: int| 0 <= k < all.len() - 1 implies (#[trigger] all[k]).eol != Eol::Missing by {
                if k > 0 {
                    assert(all[k] == rr[k - 1]);
                }
            }
        } else {
            let all = split_rows(s);
            assert(no_byte(s, 0x0A));
            assert(row_ok(all[0]));
        }
    }
}

// ---------------------------------------------------------------------------
// Bodies that read the same
// ---------------------------------------------------------------------------

/// Two bodies the reader cannot tell apart: the same kind, the same text
/// once trimmed.
pub open spec fn same_reading(a: Seq<u8>, b: Seq<u8>) -> bool {
    classify(a) == classify(b) && trim(a) == trim(b)
}

proof fn lemma_same_reading_parts(a: Seq<u8>, b: Seq<u8>)
    requires
        same_reading(a, b),
    ensures
        header_name(a) == header_name(b),
        line_of(a) == line_of(b),
{
}

/// A `\r` at the end of a body is not seen by the reader.
proof fn lemma_cr_reads_same(x: Seq<u8>)
    ensures
        same_reading(x.push(0x0D), x),
{
    let b = x.push(0x0D);
    lemma_trim_cr(x);
    lemma_first_index(x, 0x3D);
    let e = first_index(x, 0x3D);
    if e < x.len() {
        assert forall|j: int| 0 <= j < e implies b[j] != 0x3D by {
            assert(b[j] == x[j]);
        }
        lemma_first_index_unique(b, 0x3D, e);
        assert(b.take(e) =~= x.take(e));
        assert(b.skip(e + 1) =~= x.skip(e + 1).push(0x0D));
        lemma_trim_cr(x.skip(e + 1));
    } else {
        assert forall|j: int| 0 <= j < b.len() implies b[j] != 0x3D by {
            if j < x.len() {
                assert(b[j] == x[j]);
            }
        }
        lemma_first_index_unique(b, 0x3D, b.len() as int);
    }
}

proof fn lemma_norm_reads_same(r: SpecRow)
    ensures
        same_reading(norm_row(r).body, r.body),
{
    if r.eol == Eol::Lf && r.body.len() > 0 && r.body.last() == 0x0D {
        let x = r.body.drop_last();
        assert(x.push(0x0D) =~= r.body);
        lemma_cr_reads_same(x);
    }
}

/// Rows whose headers agree everywhere, and whose lines agree wherever the
/// first sits in the section, read the same.
proof fn lemma_reading_congruent(r1: Seq<SpecRow>, r2: Seq<SpecRow>, n: int, w: Seq<u8>)
    requires
        0 <= n <= r1.len(),
        n <= r2.len(),
        forall|i: int| 0 <= i < n ==> header_name(#[trigger] r1[i].body) == header_name(r2[i].body),
        forall|i: int|
            0 <= i < n && row_in_section(r1, i, w) ==> line_of(#[trigger] r1[i].body) == line_of(
                r2[i].body,
            ),
    ensures
        section_before(r1, n) == section_before(r2, n),
        section_lines_upto(r1, n, w) == section_lines_upto(r2, n, w),
    decreases n,
{
    if n > 0 {
        lemma_reading_congruent(r1, r2, n - 1, w);
        assert(header_name(r1[n - 1].body) == header_name(r2[n - 1].body));
    }
}

/// The reader sees the same section lines in rows and in what they read
/// back as.
proof fn lemma_norm_lines(rows: Seq<SpecRow>, w: Seq<u8>)
    ensures
        section_lines_upto(norm_rows(rows), rows.len() as int, w) == section_lines_upto(
            rows,
            rows.len() as int,
            w,
        ),
{
    let nr = norm_rows(rows);
    assert forall|i: int| 0 <= i < rows.len() implies header_name(#[trigger] nr[i].body)
        == header_name(rows[i].body) && line_of(nr[i].body) == line_of(rows[i].body) by {
        lemma_norm_reads_same(rows[i]);
        lemma_same_reading_parts(nr[i].body, rows[i].body);
    }
    lemma_reading_congruent(nr, rows, rows.len() as int, w);
}

// ---------------------------------------------------------------------------
// Updates and the bodies they write
// ---------------------------------------------------------------------------

/// A key that reads back as itself from a `key=value` line: trimmed, no
/// `=` or newline in it, not opening a comment or a header.
pub open spec fn key_ok(k: Seq<u8>) -> bool {
    &&& trim(k) == k
    &&& no_byte(k, 0x3D)
    &&& no_byte(k, 0x0A)
    &&& (k.len() > 0 ==> k[0] != 0x3B && k[0] != 0x23 && k[0] != 0x5B)
}

/// No two updates name the same key, ignoring ASCII case.
pub open spec fn keys_distinct(u: Seq<(Seq<u8>, Seq<u8>)>) -> bool {
    forall|i: int, j: int| 0 <= i < j < u.len() ==> !eq_ic(#[trigger] u[i].0, #[trigger] u[j].0)
}

/// Keys equal up to ASCII case select the same update.
proof fn lemma_first_match_ic(u: Seq<(Seq<u8>, Seq<u8>)>, a: Seq<u8>, b: Seq<u8>)
    requires
        eq_ic(a, b),
    ensures
        first_match(u, a) == first_match(u, b),
    decreases u.len(),
{
    if u.len() > 0 {
        lemma_eq_ic_symm(a, b);
        if eq_ic(u[0].0, a) {
            lemma_eq_ic_trans(u[0].0, a, b);
        }
        if eq_ic(u[0].0, b) {
            lemma_eq_ic_trans(u[0].0, b, a);
        }
        lemma_first_match_ic(u.skip(1), a, b);
    }
}

/// With distinct keys, an update whose key matches is the one selected.
proof fn lemma_first_match_is(u: Seq<(Seq<u8>, Seq<u8>)>, m: int, key: Seq<u8>)
    requires
        keys_distinct(u),
        0 <= m < u.len(),
        eq_ic(u[m].0, key),
    ensures
        first_match(u, key) == m,
{
    lemma_first_match(u, key);
    let f = first_match(u, key);
    if f < m {
        lemma_eq_ic_symm(u[m].0, key);
        lemma_eq_ic_trans(u[f].0, key, u[m].0);
        assert(!eq_ic(u[f].0, u[m].0));
    }
}

/// What a written `key=value` row reads as.
proof fn lemma_pair_body_reads(k: Seq<u8>, v: Seq<u8>)
    requires
        key_ok(k),
    ensures
        header_name(k + seq![0x3Du8] + v) is None,
        line_of(k + seq![0x3Du8] + v) == Some(SpecLine::Pair(k, trim(v))),
        first_index(k + seq![0x3Du8] + v, 0x3D) == k.len(),
{
    let rest = seq![0x3Du8] + v;
    let body = k + seq![0x3Du8] + v;
    assert(body =~= k + rest);
    assert(ws_len_fwd(rest) == 0);
    if k.len() > 0 {
        lemma_trimmed_start(k);
        lemma_trim_start_concat(k, rest);
        assert(trim_start(body) =~= body);
    } else {
        assert(body =~= rest);
    }
    lemma_trim_first(body);
    assert forall|j: int| 0 <= j < k.len() implies body[j] != 0x3D by {
        assert(body[j] == k[j]);
    }
    lemma_first_index_unique(body, 0x3D, k.len() as int);
    assert(body.take(k.len() as int) =~= k);
    assert(body.skip(k.len() as int + 1) =~= v);
    if k.len() == 0 {
        assert(ws_len_fwd(k) == 0);
        assert(trim_start(k) == k);
        assert(trim(k) =~= k);
    }
}

/// What a rewritten body reads as: the key as the file spelled it, and the
/// new value.
proof fn lemma_rewrite_body_reads(b: Seq<u8>, u: Seq<(Seq<u8>, Seq<u8>)>)
    requires
        header_name(b) is None,
    ensures
        header_name(rewrite_body(b, u)) is None,
        hit_of(b, u) is None ==> rewrite_body(b, u) == b,
        hit_of(b, u) is Some ==> line_of(rewrite_body(b, u)) == Some(
            SpecLine::Pair(trim(b.take(first_index(b, 0x3D))), trim(u[hit_of(b, u)->0].1)),
        ),
{
    if let Some(j) = hit_of(b, u) {
        let e = first_index(b, 0x3D);
        lemma_first_index(b, 0x3D);
        let after = b.skip(e + 1);
        let gap = after.take(after.len() - trim_start(after).len());
        let v = u[j].1;
        let rest = seq![0x3Du8] + gap + v;
        let nb = rewrite_body(b, u);
        let head = b.take(e);
        assert(nb =~= head + rest);
        assert(b =~= head + b.skip(e));
        assert(ws_len_fwd(rest) == 0);
        assert(ws_len_fwd(b.skip(e)) == 0);
        if trim_start(head).len() > 0 {
            lemma_trim_start_concat(head, rest);
            lemma_trim_start_concat(head, b.skip(e));
        } else {
            lemma_trim_start_ws_prefix(head, rest);
            lemma_trim_start_ws_prefix(head, b.skip(e));
        }
        assert(trim_start(nb).len() > 0);
        assert(trim_start(nb)[0] == trim_start(b)[0]);
        lemma_trim_first(nb);
        lemma_trim_first(b);
        assert forall|k: int| 0 <= k < e implies nb[k] != 0x3D by {
            assert(nb[k] == b[k]);
        }
        lemma_first_index_unique(nb, 0x3D, e);
        assert(nb.take(e) =~= head);
        assert(nb.skip(e + 1) =~= gap + v);
        lemma_trim_start_gap(after, v);
    }
}

// ---------------------------------------------------------------------------
// What a section says of one key
// ---------------------------------------------------------------------------

/// The value the parsers take for `key` from the lines of a section: the
/// last pair whose key matches ignoring ASCII case.
pub open spec fn lookup(lines: Seq<SpecLine>, key: Seq<u8>) -> Option<Seq<u8>>
    decreases lines.len(),
{
    if lines.len() == 0 {
        None
    } else {
        match lines.last() {
            SpecLine::Pair(k, v) => if eq_ic(k, key) {
                Some(v)
            } else {
                lookup(lines.drop_last(), key)
            },
            SpecLine::Bad(_) => lookup(lines.drop_last(), key),
        }
    }
}

/// What a body says of `key`: the value of a pair whose key matches.
pub open spec fn says(body: Seq<u8>, key: Seq<u8>) -> Option<Seq<u8>> {
    match line_of(body) {
        Some(SpecLine::Pair(k, v)) => if eq_ic(k, key) {
            Some(v)
        } else {
            None
        },
        _ => None,
    }
}

/// What row `i` says of `key` in section `w`: a value, or nothing.
pub open spec fn obs(rows: Seq<SpecRow>, i: int, w: Seq<u8>, key: Seq<u8>) -> Option<Seq<u8>> {
    if row_in_section(rows, i, w) {
        says(rows[i].body, key)
    } else {
        None
    }
}

/// What the last of the first `n` rows to say anything of `key` says.
pub open spec fn last_obs(rows: Seq<SpecRow>, n: int, w: Seq<u8>, key: Seq<u8>) -> Option<Seq<u8>>
    decreases n,
{
    if n <= 0 {
        None
    } else {
        match obs(rows, n - 1, w, key) {
            Some(v) => Some(v),
            None => last_obs(rows, n - 1, w, key),
        }
    }
}

proof fn lemma_lookup_obs(rows: Seq<SpecRow>, n: int, w: Seq<u8>, key: Seq<u8>)
    requires
        0 <= n <= rows.len(),
    ensures
        lookup(section_lines_upto(rows, n, w), key) == last_obs(rows, n, w, key),
    decreases n,
{
    if n > 0 {
        lemma_lookup_obs(rows, n - 1, w, key);
        let prev = section_lines_upto(rows, n - 1, w);
        if row_in_section(rows, n - 1, w) {
            if let Some(l) = line_of(rows[n - 1].body) {
                assert(prev.push(l).drop_last() =~= prev);
            }
        }
    }
}

proof fn lemma_last_obs_shift(
    s: Seq<SpecRow>,
    t: Seq<SpecRow>,
    d: int,
    start: int,
    k: int,
    w: Seq<u8>,
    key: Seq<u8>,
)
    requires
        0 <= start,
        0 <= d,
        0 <= k,
        forall|j: int| 0 <= j < k ==> #[trigger] obs(s, start + d + j, w, key) == obs(t, start + j, w, key),
        last_obs(s, start + d, w, key) == last_obs(t, start, w, key),
    ensures
        last_obs(s, start + d + k, w, key) == last_obs(t, start + k, w, key),
    decreases k,
{
    if k > 0 {
        lemma_last_obs_shift(s, t, d, start, k - 1, w, key);
        assert(obs(s, start + d + (k - 1), w, key) == obs(t, start + (k - 1), w, key));
    }
}

proof fn lemma_last_obs_block(s: Seq<SpecRow>, start: int, k: int, w: Seq<u8>, key: Seq<u8>)
    requires
        0 <= start,
        0 <= k,
        forall|j: int| start <= j < start + k ==> #[trigger] obs(s, j, w, key) is None,
    ensures
        last_obs(s, start + k, w, key) == last_obs(s, start, w, key),
    decreases k,
{
    if k > 0 {
        lemma_last_obs_block(s, start, k - 1, w, key);
        assert(obs(s, start + k - 1, w, key) is None);
    }
}

/// When every row that says anything of `key` says `v`, and one does, the
/// last one says `v`.
proof fn lemma_last_obs_uniform(
    s: Seq<SpecRow>,
    n: int,
    w: Seq<u8>,
    key: Seq<u8>,
    v: Seq<u8>,
    i0: int,
)
    requires
        0 <= i0 < n,
        obs(s, i0, w, key) is Some,
        forall|i: int| 0 <= i < n && (#[trigger] obs(s, i, w, key)) is Some ==> obs(s, i, w, key) == Some(v),
    ensures
        last_obs(s, n, w, key) == Some(v),
    decreases n,
{
    if obs(s, n - 1, w, key) is None {
        lemma_last_obs_uniform(s, n - 1, w, key, v, i0);
    }
}

proof fn lemma_sb_shift(s: Seq<SpecRow>, t: Seq<SpecRow>, d: int, start: int, k: int)
    requires
        0 <= start,
        0 <= d,
        0 <= k,
        forall|j: int| 0 <= j < k ==> header_name(#[trigger] s[start + d + j].body) == header_name(t[start + j].body),
        section_before(s, start + d) == section_before(t, start),
    ensures
        section_before(s, start + d + k) == section_before(t, start + k),
    decreases k,
{
    if k > 0 {
        lemma_sb_shift(s, t, d, start, k - 1);
        assert(header_name(s[start + d + (k - 1)].body) == header_name(t[start + (k - 1)].body));
    }
}

proof fn lemma_sb_block(s: Seq<SpecRow>, start: int, k: int)
    requires
        0 <= start,
        0 <= k,
        forall|j: int| start <= j < start + k ==> header_name(#[trigger] s[j].body) is None,
    ensures
        section_before(s, start + k) == section_before(s, start),
    decreases k,
{
    if k > 0 {
        lemma_sb_block(s, start, k - 1);
        assert(header_name(s[start + k - 1].body) is None);
    }
}

proof fn lemma_lines_shift(
    s: Seq<SpecRow>,
    t: Seq<SpecRow>,
    d: int,
    start: int,
    k: int,
    w: Seq<u8>,
)
    requires
        0 <= start,
        0 <= d,
        0 <= k,
        forall|j: int|
            0 <= j < k ==> (#[trigger] s[start + d + j]).body == t[start + j].body && section_before(
                s,
                start + d + j,
            ) == section_before(t, start + j),
        section_lines_upto(s, start + d, w) == section_lines_upto(t, start, w),
    ensures
        section_lines_upto(s, start + d + k, w) == section_lines_upto(t, start + k, w),
    decreases k,
{
    if k > 0 {
        lemma_lines_shift(s, t, d, start, k - 1, w);
        assert(s[start + d + (k - 1)].body == t[start + (k - 1)].body);
    }
}

proof fn lemma_lines_block(s: Seq<SpecRow>, start: int, k: int, w: Seq<u8>)
    requires
        0 <= start,
        0 <= k,
        forall|j: int|
            start <= j < start + k ==> !row_in_section(s, j, w) || line_of(#[trigger] s[j].body) is None,
    ensures
        section_lines_upto(s, start + k, w) == section_lines_upto(s, start, w),
    decreases k,
{
    if k > 0 {
        lemma_lines_block(s, start, k - 1, w);
        assert(!row_in_section(s, start + k - 1, w) || line_of(s[start + k - 1].body) is None);
    }
}

// ---------------------------------------------------------------------------
// Where the rewrite puts things
// ---------------------------------------------------------------------------

/// Every row written for a missing key has a property that every such key's
/// row has.
proof fn lemma_missing_all(
    rows: Seq<SpecRow>,
    want: Seq<u8>,
    u: Seq<(Seq<u8>, Seq<u8>)>,
    m: int,
    nl: Eol,
    p: spec_fn(SpecRow) -> bool,
)
    requires
        0 <= m <= u.len(),
        forall|j: int|
            #![trigger pair_row(u[j], nl)]
            0 <= j < m && !seen_upto(rows, rows.len() as int, want, u, j) ==> p(pair_row(u[j], nl)),
    ensures
        forall|k: int|
            0 <= k < missing_upto(rows, want, u, m, nl).len() ==> p(
                #[trigger] missing_upto(rows, want, u, m, nl)[k],
            ),
    decreases m,
{
    if m > 0 {
        lemma_missing_all(rows, want, u, m - 1, nl, p);
        let prev = missing_upto(rows, want, u, m - 1, nl);
        let cur = missing_upto(rows, want, u, m, nl);
        assert forall|k: int| 0 <= k < cur.len() implies p(#[trigger] cur[k]) by {
            if k < prev.len() {
                assert(cur[k] == prev[k]);
            } else {
                assert(cur[k] == pair_row(u[m - 1], nl));
            }
        }
    }
}

/// A key no row matched has its row among those written.
proof fn lemma_missing_has(
    rows: Seq<SpecRow>,
    want: Seq<u8>,
    u: Seq<(Seq<u8>, Seq<u8>)>,
    m: int,
    nl: Eol,
    j: int,
) -> (k: int)
    requires
        0 <= j < m <= u.len(),
        !seen_upto(rows, rows.len() as int, want, u, j),
    ensures
        0 <= k < missing_upto(rows, want, u, m, nl).len(),
        missing_upto(rows, want, u, m, nl)[k] == pair_row(u[j], nl),
    decreases m,
{
    let prev = missing_upto(rows, want, u, m - 1, nl);
    if j == m - 1 {
        prev.len() as int
    } else {
        let k = lemma_missing_has(rows, want, u, m - 1, nl, j);
        assert(missing_upto(rows, want, u, m, nl)[k] == prev[k]);
        k
    }
}

/// The row where a key was found.
proof fn lemma_seen_witness(
    rows: Seq<SpecRow>,
    n: int,
    want: Seq<u8>,
    u: Seq<(Seq<u8>, Seq<u8>)>,
    j: int,
) -> (i: int)
    requires
        seen_upto(rows, n, want, u, j),
    ensures
        0 <= i < n,
        in_target(rows, i, want),
        hit_of(rows[i].body, u) == Some(j),
    decreases n,
{
    if seen_upto(rows, n - 1, want, u, j) {
        lemma_seen_witness(rows, n - 1, want, u, j)
    } else {
        n - 1
    }
}

/// Just past the insertion point the section in force is the one written.
proof fn lemma_insert_at_in_section(rows: Seq<SpecRow>, m: int, want: Seq<u8>)
    requires
        0 <= m <= rows.len(),
        insert_at_upto(rows, m, want) is Some,
    ensures
        0 < insert_at_upto(rows, m, want)->0 <= m,
        match section_before(rows, insert_at_upto(rows, m, want)->0) {
            Some(h) => eq_ic(h, want),
            None => false,
        },
    decreases m,
{
    let hit_here = (match header_name(rows[m - 1].body) {
        Some(h) => eq_ic(h, want),
        None => false,
    }) || (in_target(rows, m - 1, want) && is_pair_body(rows[m - 1].body));
    if !hit_here {
        lemma_insert_at_in_section(rows, m - 1, want);
    }
}

/// A found section has an insertion point.
proof fn lemma_found_insert_at(rows: Seq<SpecRow>, m: int, want: Seq<u8>)
    requires
        0 <= m <= rows.len(),
        found_upto(rows, m, want),
    ensures
        insert_at_upto(rows, m, want) is Some,
    decreases m,
{
    if !found_upto(rows, m - 1, want) {
    } else {
        let hit_here = (match header_name(rows[m - 1].body) {
            Some(h) => eq_ic(h, want),
            None => false,
        }) || (in_target(rows, m - 1, want) && is_pair_body(rows[m - 1].body));
        if !hit_here {
            lemma_found_insert_at(rows, m - 1, want);
        }
    }
}

/// Rewriting values moves no header: each row keeps its header name and its
/// terminator, and so every row keeps its section.
proof fn lemma_out_rows_headers(rows: Seq<SpecRow>, want: Seq<u8>, u: Seq<(Seq<u8>, Seq<u8>)>)
    ensures
        out_rows(rows, want, u).len() == rows.len(),
        forall|i: int|
            0 <= i < rows.len() ==> header_name(#[trigger] out_rows(rows, want, u)[i].body)
                == header_name(rows[i].body) && out_rows(rows, want, u)[i].eol == rows[i].eol,
        forall|i: int|
            0 <= i <= rows.len() ==> #[trigger] section_before(out_rows(rows, want, u), i)
                == section_before(rows, i),
{
    let outr = out_rows(rows, want, u);
    assert forall|i: int| 0 <= i < rows.len() implies header_name(#[trigger] outr[i].body)
        == header_name(rows[i].body) && outr[i].eol == rows[i].eol by {
        assert(outr[i] == out_row(rows, i, want, u));
        if in_target(rows, i, want) {
            lemma_rewrite_body_reads(rows[i].body, u);
        }
    }
    assert forall|i: int| 0 <= i <= rows.len() implies #[trigger] section_before(outr, i)
        == section_before(rows, i) by {
        lemma_sb_shift(outr, rows, 0, 0, i);
    }
}

spec fn found_of(rows: Seq<SpecRow>, want: Seq<u8>) -> bool {
    found_upto(rows, rows.len() as int, want)
}

spec fn at_of(rows: Seq<SpecRow>, want: Seq<u8>) -> int {
    if found_of(rows, want) {
        match insert_at_upto(rows, rows.len() as int, want) {
            Some(a) => a,
            None => rows.len() as int,
        }
    } else {
        rows.len() as int
    }
}

spec fn head_of(rows: Seq<SpecRow>, want: Seq<u8>, nl: Eol) -> Seq<SpecRow> {
    if found_of(rows, want) {
        seq![]
    } else {
        new_header_rows(rows.len() as int, want, nl)
    }
}

spec fn miss_of(rows: Seq<SpecRow>, want: Seq<u8>, u: Seq<(Seq<u8>, Seq<u8>)>, nl: Eol) -> Seq<SpecRow> {
    missing_upto(rows, want, u, u.len() as int, nl)
}

spec fn fixed_of(rows: Seq<SpecRow>, want: Seq<u8>, u: Seq<(Seq<u8>, Seq<u8>)>, nl: Eol) -> Seq<SpecRow> {
    let outr = out_rows(rows, want, u);
    let at = at_of(rows, want);
    if at > 0 && outr[at - 1].eol == Eol::Missing {
        outr.update(at - 1, SpecRow { body: outr[at - 1].body, eol: nl })
    } else {
        outr
    }
}

/// The rewritten rows, piece by piece: the rows with their values replaced,
/// and, when keys are missing, the rows written for them (after a new header
/// when the section is absent) spliced in at the insertion point.
proof fn lemma_shape(rows: Seq<SpecRow>, want: Seq<u8>, u: Seq<(Seq<u8>, Seq<u8>)>, nl: Eol)
    ensures
        miss_of(rows, want, u, nl).len() == 0 ==> rewrite_rows(rows, want, u, nl) == out_rows(
            rows,
            want,
            u,
        ),
        miss_of(rows, want, u, nl).len() > 0 ==> rewrite_rows(rows, want, u, nl) == fixed_of(
            rows,
            want,
            u,
            nl,
        ).take(at_of(rows, want)) + (head_of(rows, want, nl) + miss_of(rows, want, u, nl))
            + fixed_of(rows, want, u, nl).skip(at_of(rows, want)),
        0 <= at_of(rows, want) <= rows.len(),
        found_of(rows, want) ==> 0 < at_of(rows, want) && head_of(rows, want, nl).len() == 0,
        !found_of(rows, want) ==> at_of(rows, want) == rows.len(),
        found_of(rows, want) ==> match section_before(rows, at_of(rows, want)) {
            Some(h) => eq_ic(h, want),
            None => false,
        },
        fixed_of(rows, want, u, nl).len() == rows.len(),
        forall|i: int|
            0 <= i < rows.len() ==> (#[trigger] fixed_of(rows, want, u, nl)[i]).body == out_rows(
                rows,
                want,
                u,
            )[i].body,
        forall|i: int|
            0 <= i < rows.len() ==> (#[trigger] fixed_of(rows, want, u, nl)[i]).eol == out_rows(
                rows,
                want,
                u,
            )[i].eol || (i == at_of(rows, want) - 1 && fixed_of(rows, want, u, nl)[i].eol == nl),
{
    let n = rows.len() as int;
    lemma_out_rows_headers(rows, want, u);
    if found_of(rows, want) {
        lemma_found_insert_at(rows, n, want);
        lemma_insert_at_in_section(rows, n, want);
    }
    if miss_of(rows, want, u, nl).len() > 0 && found_of(rows, want) {
        assert(seq![] + miss_of(rows, want, u, nl) =~= miss_of(rows, want, u, nl));
    }
}

/// An update that writes whole lines: no newline in its key or its value,
/// and a `key=value` line that does not read as a header.
pub open spec fn line_writable(kv: (Seq<u8>, Seq<u8>)) -> bool {
    &&& no_byte(kv.0, 0x0A)
    &&& no_byte(kv.1, 0x0A)
    &&& header_name(kv.0 + seq![0x3Du8] + kv.1) is None
}

pub open spec fn updates_writable(u: Seq<(Seq<u8>, Seq<u8>)>) -> bool {
    forall|m: int| 0 <= m < u.len() ==> line_writable(#[trigger] u[m])
}

/// What the header written for a section reads as.
proof fn lemma_header_row_reads(want: Seq<u8>)
    requires
        trim(want) == want,
    ensures
        header_name(seq![0x5Bu8] + want + seq![0x5Du8]) == Some(want),
        line_of(seq![0x5Bu8] + want + seq![0x5Du8]) is None,
{
    let b = seq![0x5Bu8] + want + seq![0x5Du8];
    assert(b[0] == 0x5B);
    assert(b[b.len() - 1] == 0x5D);
    assert(ws_len_fwd(b) == 0);
    assert(trim_start(b) == b);
    assert(crate::text::ws_len_bwd(b) == 0);
    assert(crate::text::trim_end(b) == b);
    assert(b.skip(1) =~= want + seq![0x5Du8]);
    assert(b.skip(1).drop_last() =~= want);
}

proof fn lemma_blank_row_reads()
    ensures
        header_name(Seq::<u8>::empty()) is None,
        line_of(Seq::<u8>::empty()) is None,
{
    let e = Seq::<u8>::empty();
    assert(ws_len_fwd(e) == 0);
    assert(crate::text::ws_len_bwd(e) == 0);
    assert(trim(e) =~= e);
}

/// Where each row of the rewritten file comes from, and the section each
/// sits in, when keys had to be inserted.
#[verifier::spinoff_prover]
#[verifier::rlimit(40)]
proof fn lemma_positions(rows: Seq<SpecRow>, want: Seq<u8>, u: Seq<(Seq<u8>, Seq<u8>)>, nl: Eol)
    requires
        miss_of(rows, want, u, nl).len() > 0,
        updates_writable(u),
        trim(want) == want,
    ensures
        ({
            let s = rewrite_rows(rows, want, u, nl);
            let at = at_of(rows, want);
            let hd = head_of(rows, want, nl);
            let ms = miss_of(rows, want, u, nl);
            let fx = fixed_of(rows, want, u, nl);
            let bl = hd.len() + ms.len();
            &&& s.len() == rows.len() + bl
            &&& forall|p: int| 0 <= p < at ==> #[trigger] s[p] == fx[p]
            &&& forall|p: int| 0 <= p <= at ==> #[trigger] section_before(s, p) == section_before(rows, p)
            &&& forall|j: int| 0 <= j < hd.len() ==> #[trigger] s[at + j] == hd[j]
            &&& forall|j: int| 0 <= j < ms.len() ==> #[trigger] s[at + hd.len() + j] == ms[j]
            &&& forall|j: int| 0 <= j < ms.len() ==> header_name(#[trigger] ms[j].body) is None
            &&& forall|j: int| 0 <= j < hd.len() ==> line_of(#[trigger] hd[j].body) is None
            &&& forall|j: int|
                0 <= j < ms.len() ==> row_in_section(s, #[trigger] (at + hd.len() + j), want)
            &&& forall|k: int| 0 <= k < rows.len() - at ==> #[trigger] s[at + bl + k] == fx[at + k]
            &&& found_of(rows, want) ==> forall|k: int|
                0 <= k <= rows.len() - at ==> #[trigger] section_before(s, at + bl + k) == section_before(
                    rows,
                    at + k,
                )
        }),
{
    let n = rows.len() as int;
    let s = rewrite_rows(rows, want, u, nl);
    let at = at_of(rows, want);
    let hd = head_of(rows, want, nl);
    let ms = miss_of(rows, want, u, nl);
    let fx = fixed_of(rows, want, u, nl);
    let outr = out_rows(rows, want, u);
    let bl = hd.len() + ms.len();
    lemma_shape(rows, want, u, nl);
    lemma_out_rows_headers(rows, want, u);
    assert(s == fx.take(at) + (hd + ms) + fx.skip(at));
    assert forall|p: int| 0 <= p < at implies #[trigger] s[p] == fx[p] by {}
    assert forall|j: int| 0 <= j < hd.len() implies #[trigger] s[at + j] == hd[j] by {}
    assert forall|j: int| 0 <= j < ms.len() implies #[trigger] s[at + hd.len() + j] == ms[j] by {}
    assert forall|k: int| 0 <= k < n - at implies #[trigger] s[at + bl + k] == fx[at + k] by {}
    // Headers agree along the untouched rows.
    assert forall|p: int| 0 <= p <= at implies #[trigger] section_before(s, p) == section_before(
        rows,
        p,
    ) by {
        assert forall|j: int| 0 <= j < p implies header_name(#[trigger] s[0 + 0 + j].body)
            == header_name(outr[0 + j].body) by {
            assert(s[j] == fx[j]);
        }
        lemma_sb_shift(s, outr, 0, 0, p);
    }
    // The rows written for missing keys.
    let pw = |r: SpecRow| header_name(r.body) is None;
    assert forall|j: int|
        #![trigger pair_row(u[j], nl)]
        0 <= j < u.len() && !seen_upto(rows, n, want, u, j) implies pw(pair_row(u[j], nl)) by {
        assert(line_writable(u[j]));
    }
    lemma_missing_all(rows, want, u, u.len() as int, nl, pw);
    assert forall|j: int| 0 <= j < ms.len() implies header_name(#[trigger] ms[j].body) is None by {
        assert(pw(ms[j]));
    }
    lemma_blank_row_reads();
    lemma_header_row_reads(want);
    assert forall|j: int| 0 <= j < hd.len() implies line_of(#[trigger] hd[j].body) is None by {}
    // The section the written rows sit in.
    let top = at + hd.len();
    assert forall|j: int| top <= j < top + ms.len() implies header_name(#[trigger] s[j].body) is None by {
        assert(s[at + hd.len() + (j - top)] == ms[j - top]);
        assert(header_name(ms[j - top].body) is None);
    }
    if found_of(rows, want) {
        assert(hd.len() == 0);
        assert(section_before(s, top) == section_before(rows, at));
    } else {
        assert(at == n);
        assert(s[at + hd.len() - 1] == hd[hd.len() - 1]);
        assert(section_before(s, top) == Some(want));
    }
    let sec = section_before(s, top);
    assert(match sec {
        Some(h) => eq_ic(h, want),
        None => false,
    });
    assert forall|j: int| 0 <= j < ms.len() implies row_in_section(s, #[trigger] (at + hd.len() + j), want) by {
        lemma_sb_block(s, top, j);
    }
    // Past the inserted rows.
    if found_of(rows, want) {
        lemma_sb_block(s, top, ms.len() as int);
        assert forall|k: int| 0 <= k <= n - at implies #[trigger] section_before(s, at + bl + k)
            == section_before(rows, at + k) by {
            assert forall|j: int| 0 <= j < k implies header_name(#[trigger] s[at + bl + j].body)
                == header_name(outr[at + j].body) by {
                assert(s[at + bl + j] == fx[at + j]);
            }
            lemma_sb_shift(s, outr, bl as int, at, k);
        }
    }
}

proof fn lemma_rewrite_body_ok(b: Seq<u8>, u: Seq<(Seq<u8>, Seq<u8>)>)
    requires
        no_byte(b, 0x0A),
        updates_writable(u),
    ensures
        no_byte(rewrite_body(b, u), 0x0A),
        hit_of(b, u) is Some ==> rewrite_body(b, u).len() > 0,
{
    if let Some(j) = hit_of(b, u) {
        let e = first_index(b, 0x3D);
        lemma_first_index(b, 0x3D);
        lemma_first_match(u, trim(b.take(e)));
        let after = b.skip(e + 1);
        crate::text::lemma_trim_start_suffix(after);
        let gap = after.take(after.len() - trim_start(after).len());
        let v = u[j].1;
        assert(line_writable(u[j]));
        let nb = rewrite_body(b, u);
        assert(nb =~= b.take(e) + seq![0x3Du8] + gap + v);
        assert forall|k: int| 0 <= k < nb.len() implies #[trigger] nb[k] != 0x0A by {
            if k < e {
                assert(nb[k] == b[k]);
            } else if k == e {
            } else if k < e + 1 + gap.len() {
                assert(nb[k] == b[k]);
            } else {
                assert(nb[k] == v[k - e - 1 - gap.len()]);
            }
        }
    }
}

/// The rewritten rows can be written out.
#[verifier::spinoff_prover]
#[verifier::rlimit(40)]
proof fn lemma_rewrite_rows_ok(rows: Seq<SpecRow>, want: Seq<u8>, u: Seq<(Seq<u8>, Seq<u8>)>, nl: Eol)
    requires
        rows_ok(rows),
        updates_writable(u),
        no_byte(want, 0x0A),
        nl != Eol::Missing,
    ensures
        rows_ok(rewrite_rows(rows, want, u, nl)),
{
    let n = rows.len() as int;
    let outr = out_rows(rows, want, u);
    lemma_shape(rows, want, u, nl);
    lemma_out_rows_headers(rows, want, u);
    assert forall|i: int| 0 <= i < n implies row_ok(#[trigger] outr[i]) by {
        assert(row_ok(rows[i]));
        assert(outr[i] == out_row(rows, i, want, u));
        if in_target(rows, i, want) {
            lemma_rewrite_body_ok(rows[i].body, u);
        }
    }
    let ms = miss_of(rows, want, u, nl);
    if ms.len() > 0 {
        let s = rewrite_rows(rows, want, u, nl);
        let at = at_of(rows, want);
        let hd = head_of(rows, want, nl);
        let fx = fixed_of(rows, want, u, nl);
        let bl = hd.len() + ms.len();
        assert(s == fx.take(at) + (hd + ms) + fx.skip(at));
        let po = |r: SpecRow| row_ok(r) && r.eol == nl;
        assert forall|j: int|
            #![trigger pair_row(u[j], nl)]
            0 <= j < u.len() && !seen_upto(rows, n, want, u, j) implies po(pair_row(u[j], nl)) by {
            assert(line_writable(u[j]));
            let b = pair_row(u[j], nl).body;
            assert forall|k: int| 0 <= k < b.len() implies #[trigger] b[k] != 0x0A by {
                if k < u[j].0.len() {
                    assert(b[k] == u[j].0[k]);
                } else if k > u[j].0.len() {
                    assert(b[k] == u[j].1[k - u[j].0.len() - 1]);
                }
            }
        }
        lemma_missing_all(rows, want, u, u.len() as int, nl, po);
        let hb = seq![0x5Bu8] + want + seq![0x5Du8];
        assert(no_byte(hb, 0x0A)) by {
            assert forall|k: int| 0 <= k < hb.len() implies #[trigger] hb[k] != 0x0A by {
                if 0 < k < hb.len() - 1 {
                    assert(hb[k] == want[k - 1]);
                }
            }
        }
        assert forall|p: int| 0 <= p < s.len() implies row_ok(#[trigger] s[p]) && (p < s.len() - 1
            ==> s[p].eol != Eol::Missing) by {
            if p < at {
                assert(s[p] == fx[p]);
                assert(row_ok(outr[p]));
                if p < n - 1 {
                    assert(rows[p].eol != Eol::Missing);
                }
            } else if p < at + hd.len() {
                assert(s[p] == hd[p - at]);
            } else if p < at + bl {
                assert(s[p] == ms[p - at - hd.len()]);
                assert(po(ms[p - at - hd.len()]));
            } else {
                assert(s[p] == fx[p - bl]);
                assert(row_ok(outr[p - bl]));
                if p - bl < n - 1 {
                    assert(rows[p - bl].eol != Eol::Missing);
                }
            }
        }
    } else {
        assert forall|p: int| 0 <= p < n - 1 implies (#[trigger] outr[p]).eol != Eol::Missing by {
            assert(rows[p].eol != Eol::Missing);
        }
    }
}

// ---------------------------------------------------------------------------
// Rows a second write leaves alone
// ---------------------------------------------------------------------------

/// A body a rewrite leaves as it is: its key selects no update, or the
/// value after its spacing is already the one its update gives.
spec fn settled(c: Seq<u8>, u: Seq<(Seq<u8>, Seq<u8>)>) -> bool {
    match hit_of(c, u) {
        Some(j) => trim_start(c.skip(first_index(c, 0x3D) + 1)) == u[j].1,
        None => true,
    }
}

proof fn lemma_settled_rests(c: Seq<u8>, u: Seq<(Seq<u8>, Seq<u8>)>)
    requires
        settled(c, u),
    ensures
        rewrite_body(c, u) == c,
{
    if let Some(j) = hit_of(c, u) {
        let e = first_index(c, 0x3D);
        lemma_first_index(c, 0x3D);
        let after = c.skip(e + 1);
        crate::text::lemma_trim_start_suffix(after);
        let v = u[j].1;
        let gap = after.take(after.len() - trim_start(after).len());
        assert(gap + v =~= after);
        assert(c =~= c.take(e) + seq![0x3Du8] + after);
    }
}

/// A value written once is settled: its key still selects the same update.
proof fn lemma_rewritten_settled(b: Seq<u8>, u: Seq<(Seq<u8>, Seq<u8>)>)
    requires
        header_name(b) is None,
        forall|m: int| 0 <= m < u.len() ==> trim_start(#[trigger] u[m].1) == u[m].1,
    ensures
        hit_of(rewrite_body(b, u), u) == hit_of(b, u),
        settled(rewrite_body(b, u), u),
{
    lemma_rewrite_body_reads(b, u);
    if let Some(j) = hit_of(b, u) {
        let e = first_index(b, 0x3D);
        lemma_first_index(b, 0x3D);
        lemma_first_match(u, trim(b.take(e)));
        let after = b.skip(e + 1);
        let gap = after.take(after.len() - trim_start(after).len());
        let v = u[j].1;
        let nb = rewrite_body(b, u);
        assert(nb =~= b.take(e) + seq![0x3Du8] + gap + v);
        assert forall|k: int| 0 <= k < e implies nb[k] != 0x3D by {
            assert(nb[k] == b[k]);
        }
        lemma_first_index_unique(nb, 0x3D, e);
        assert(nb.take(e) =~= b.take(e));
        assert(nb.skip(e + 1) =~= gap + v);
        lemma_trim_start_gap(after, v);
        assert(!crate::ini::is_skipped(nb));
    }
}

/// Taking a `\r` off the end of a body does not change the update its key
/// selects, and leaves a settled body settled when no value ends in `\r`.
proof fn lemma_cr_settled(x: Seq<u8>, u: Seq<(Seq<u8>, Seq<u8>)>)
    requires
        settled(x.push(0x0D), u),
        forall|m: int| 0 <= m < u.len() ==> (#[trigger] u[m].1).len() == 0 || u[m].1.last() != 0x0D,
    ensures
        hit_of(x, u) == hit_of(x.push(0x0D), u),
        settled(x, u),
{
    let b = x.push(0x0D);
    lemma_trim_cr(x);
    lemma_first_index(x, 0x3D);
    let e = first_index(x, 0x3D);
    if e < x.len() {
        assert forall|j: int| 0 <= j < e implies b[j] != 0x3D by {
            assert(b[j] == x[j]);
        }
        lemma_first_index_unique(b, 0x3D, e);
        assert(b.take(e) =~= x.take(e));
        let y = x.skip(e + 1);
        assert(b.skip(e + 1) =~= y.push(0x0D));
        lemma_trim_cr(y);
        if let Some(j) = hit_of(x, u) {
            lemma_first_match(u, trim(x.take(e)));
            if trim_start(y).len() > 0 {
                assert(trim_start(y.push(0x0D)).last() == 0x0D);
            }
        }
    } else {
        assert forall|j: int| 0 <= j < b.len() implies b[j] != 0x3D by {
            if j < x.len() {
                assert(b[j] == x[j]);
            }
        }
        lemma_first_index_unique(b, 0x3D, b.len() as int);
    }
}

proof fn lemma_seen_from(
    rows: Seq<SpecRow>,
    n: int,
    want: Seq<u8>,
    u: Seq<(Seq<u8>, Seq<u8>)>,
    j: int,
    i: int,
)
    requires
        0 <= i < n,
        in_target(rows, i, want),
        hit_of(rows[i].body, u) == Some(j),
    ensures
        seen_upto(rows, n, want, u, j),
    decreases n,
{
    if i < n - 1 {
        lemma_seen_from(rows, n - 1, want, u, j, i);
    }
}

proof fn lemma_missing_none(
    rows: Seq<SpecRow>,
    want: Seq<u8>,
    u: Seq<(Seq<u8>, Seq<u8>)>,
    m: int,
    nl: Eol,
)
    requires
        0 <= m <= u.len(),
        forall|j: int| 0 <= j < m ==> #[trigger] seen_upto(rows, rows.len() as int, want, u, j),
    ensures
        missing_upto(rows, want, u, m, nl).len() == 0,
    decreases m,
{
    if m > 0 {
        lemma_missing_none(rows, want, u, m - 1, nl);
        assert(seen_upto(rows, rows.len() as int, want, u, m - 1));
    }
}

/// Rows and what they read back as are the same bytes.
proof fn lemma_join_norm(rows: Seq<SpecRow>)
    ensures
        join_rows(norm_rows(rows)) == join_rows(rows),
    decreases rows.len(),
{
    if rows.len() > 0 {
        lemma_join_norm(rows.drop_last());
        assert(norm_rows(rows).drop_last() =~= norm_rows(rows.drop_last()));
        let r = rows.last();
        if r.eol == Eol::Lf && r.body.len() > 0 && r.body.last() == 0x0D {
            assert(r.body.drop_last() + eol_bytes(Eol::CrLf) =~= r.body + eol_bytes(Eol::Lf));
        }
        assert(norm_rows(rows).last() == norm_row(r));
        assert((join_rows(norm_rows(rows).drop_last()) + norm_row(r).body) + eol_bytes(norm_row(r).eol)
            =~= (join_rows(rows.drop_last()) + r.body) + eol_bytes(r.eol));
    }
}

// ---------------------------------------------------------------------------
// The laws
// ---------------------------------------------------------------------------

/// The common first step: what the rewritten file reads as in section `w`
/// is what its rows, before being written out, read as.
proof fn lemma_rewritten_reads(text: Seq<u8>, section: Seq<u8>, u: Seq<(Seq<u8>, Seq<u8>)>, w: Seq<u8>)
    requires
        updates_writable(u),
        no_byte(trim(section), 0x0A),
    ensures
        section_lines_upto(
            split_rows(rewrite_spec(text, section, u)),
            split_rows(rewrite_spec(text, section, u)).len() as int,
            w,
        ) == section_lines_upto(
            rewrite_rows(split_rows(text), trim(section), u, newline_of(text)),
            rewrite_rows(split_rows(text), trim(section), u, newline_of(text)).len() as int,
            w,
        ),
{
    let rows = split_rows(text);
    let out = rewrite_rows(rows, trim(section), u, newline_of(text));
    lemma_split_ok(text);
    lemma_rewrite_rows_ok(rows, trim(section), u, newline_of(text));
    lemma_split_join(out);
    lemma_norm_lines(out, w);
}

/// Writing one section leaves every other section reading exactly as it
/// did, line for line; rows before the first header count as no section and
/// are left alone too.
#[verifier::spinoff_prover]
#[verifier::rlimit(40)]
pub proof fn lemma_rewrite_keeps_other_sections(
    text: Seq<u8>,
    section: Seq<u8>,
    u: Seq<(Seq<u8>, Seq<u8>)>,
    other: Seq<u8>,
)
    requires
        updates_writable(u),
        no_byte(trim(section), 0x0A),
        !eq_ic(trim(other), trim(section)),
    ensures
        section_lines_spec(rewrite_spec(text, section, u), other) == section_lines_spec(text, other),
{
    let rows = split_rows(text);
    let n = rows.len() as int;
    let want = trim(section);
    let w = trim(other);
    let nl = newline_of(text);
    let out = rewrite_rows(rows, want, u, nl);
    let outr = out_rows(rows, want, u);
    lemma_trim_idem(section);
    lemma_rewritten_reads(text, section, u, w);
    lemma_out_rows_headers(rows, want, u);
    // Rows in another section are never rewritten.
    assert forall|i: int| 0 <= i < n && row_in_section(outr, i, w) implies line_of(
        #[trigger] outr[i].body,
    ) == line_of(rows[i].body) by {
        assert(outr[i] == out_row(rows, i, want, u));
        if in_target(rows, i, want) {
            let h = section_before(rows, i)->0;
            lemma_eq_ic_symm(h, w);
            lemma_eq_ic_trans(w, h, want);
        }
    }
    lemma_reading_congruent(outr, rows, n, w);
    lemma_shape(rows, want, u, nl);
    if miss_of(rows, want, u, nl).len() > 0 {
        lemma_positions(rows, want, u, nl);
        let at = at_of(rows, want);
        let hd = head_of(rows, want, nl);
        let ms = miss_of(rows, want, u, nl);
        let fx = fixed_of(rows, want, u, nl);
        let bl = hd.len() + ms.len();
        // Up to the insertion point.
        assert forall|j: int| 0 <= j < at implies (#[trigger] out[0 + 0 + j]).body == outr[0
            + j].body && section_before(out, 0 + 0 + j) == section_before(outr, 0 + j) by {
            assert(out[j] == fx[j]);
        }
        lemma_lines_shift(out, outr, 0, 0, at, w);
        // The inserted rows say nothing in another section.
        assert forall|j: int| at <= j < at + bl implies !row_in_section(out, j, w) || line_of(
            #[trigger] out[j].body,
        ) is None by {
            if j < at + hd.len() {
                assert(out[at + (j - at)] == hd[j - at]);
            } else {
                let k = j - at - hd.len();
                assert(row_in_section(out, at + hd.len() + k, want));
                if row_in_section(out, j, w) {
                    let h = section_before(out, j)->0;
                    lemma_eq_ic_symm(h, w);
                    lemma_eq_ic_trans(w, h, want);
                }
            }
        }
        lemma_lines_block(out, at, bl as int, w);
        // Past the inserted rows.
        if found_of(rows, want) {
            assert forall|j: int| 0 <= j < n - at implies (#[trigger] out[at + bl + j]).body
                == outr[at + j].body && section_before(out, at + bl + j) == section_before(
                outr,
                at + j,
            ) by {
                assert(out[at + bl + j] == fx[at + j]);
            }
            lemma_lines_shift(out, outr, bl as int, at, n - at, w);
        }
    }
}

/// An update the reader gives back as written: a key it reads as itself,
/// a value without a newline.
pub open spec fn update_readable(kv: (Seq<u8>, Seq<u8>)) -> bool {
    key_ok(kv.0) && no_byte(kv.1, 0x0A)
}

pub open spec fn updates_readable(u: Seq<(Seq<u8>, Seq<u8>)>) -> bool {
    &&& forall|m: int| 0 <= m < u.len() ==> update_readable(#[trigger] u[m])
    &&& keys_distinct(u)
}

proof fn lemma_readable_writable(u: Seq<(Seq<u8>, Seq<u8>)>)
    requires
        updates_readable(u),
    ensures
        updates_writable(u),
{
    assert forall|m: int| 0 <= m < u.len() implies line_writable(#[trigger] u[m]) by {
        assert(update_readable(u[m]));
        lemma_pair_body_reads(u[m].0, u[m].1);
    }
}

/// What a rewritten row says of `key`, against what it said before.
proof fn lemma_out_row_says(
    rows: Seq<SpecRow>,
    want: Seq<u8>,
    u: Seq<(Seq<u8>, Seq<u8>)>,
    i: int,
    key: Seq<u8>,
)
    requires
        0 <= i < rows.len(),
    ensures
        ({
            let outr = out_rows(rows, want, u);
            let j = first_match(u, key);
            &&& j < u.len() && obs(outr, i, want, key) is Some ==> obs(outr, i, want, key) == Some(
                trim(u[j].1),
            )
            &&& j >= u.len() ==> obs(outr, i, want, key) == obs(rows, i, want, key)
            &&& j < u.len() && in_target(rows, i, want) && hit_of(rows[i].body, u) == Some(j)
                ==> obs(outr, i, want, key) == Some(trim(u[j].1))
        }),
{
    let outr = out_rows(rows, want, u);
    let j = first_match(u, key);
    lemma_first_match(u, key);
    lemma_out_rows_headers(rows, want, u);
    assert(outr[i] == out_row(rows, i, want, u));
    assert(section_before(outr, i) == section_before(rows, i));
    let b = rows[i].body;
    if in_target(rows, i, want) {
        lemma_rewrite_body_reads(b, u);
        let e = first_index(b, 0x3D);
        let k = trim(b.take(e));
        lemma_first_match(u, k);
        if let Some(h) = hit_of(b, u) {
            // The row now says the value of the update its key selected.
            if eq_ic(k, key) {
                lemma_first_match_ic(u, k, key);
            }
            if j < u.len() && h == j {
                lemma_eq_ic_symm(u[j].0, k);
                lemma_eq_ic_trans(k, u[j].0, key);
            }
        } else {
            // Untouched: its key selects no update.
            if eq_ic(k, key) {
                lemma_first_match_ic(u, k, key);
            }
        }
    }
}

/// Reading a section back after writing it: a key that was written reads
/// as the value it was given (trimmed, as the reader trims every value), and
/// any other key reads exactly as it did before.
#[verifier::spinoff_prover]
#[verifier::rlimit(40)]
pub proof fn lemma_rewrite_read_back(
    text: Seq<u8>,
    section: Seq<u8>,
    u: Seq<(Seq<u8>, Seq<u8>)>,
    key: Seq<u8>,
)
    requires
        updates_readable(u),
        no_byte(trim(section), 0x0A),
    ensures
        lookup(section_lines_spec(rewrite_spec(text, section, u), section), key) == (if first_match(
            u,
            key,
        ) < u.len() {
            Some(trim(u[first_match(u, key)].1))
        } else {
            lookup(section_lines_spec(text, section), key)
        }),
{
    let rows = split_rows(text);
    let n = rows.len() as int;
    let want = trim(section);
    let nl = newline_of(text);
    let out = rewrite_rows(rows, want, u, nl);
    let outr = out_rows(rows, want, u);
    let j = first_match(u, key);
    lemma_first_match(u, key);
    lemma_readable_writable(u);
    lemma_trim_idem(section);
    lemma_rewritten_reads(text, section, u, want);
    lemma_lookup_obs(out, out.len() as int, want, key);
    lemma_lookup_obs(rows, n, want, key);
    lemma_out_rows_headers(rows, want, u);
    lemma_shape(rows, want, u, nl);
    assert forall|i: int| 0 <= i < n implies {
        &&& j < u.len() && (#[trigger] obs(outr, i, want, key)) is Some ==> obs(outr, i, want, key)
            == Some(trim(u[j].1))
        &&& j >= u.len() ==> obs(outr, i, want, key) == obs(rows, i, want, key)
    } by {
        lemma_out_row_says(rows, want, u, i, key);
    }
    let ms = miss_of(rows, want, u, nl);
    // Every row written for a missing key says, of `key`, the value `key`
    // was given, or nothing.
    let pm = |r: SpecRow|
        says(r.body, key) is Some ==> j < u.len() && says(r.body, key) == Some(trim(u[j].1));
    assert forall|m: int|
        #![trigger pair_row(u[m], nl)]
        0 <= m < u.len() && !seen_upto(rows, n, want, u, m) implies pm(pair_row(u[m], nl)) by {
        assert(update_readable(u[m]));
        lemma_pair_body_reads(u[m].0, u[m].1);
        if eq_ic(u[m].0, key) {
            lemma_first_match_is(u, m, key);
        }
    }
    lemma_missing_all(rows, want, u, u.len() as int, nl, pm);
    if ms.len() == 0 {
        if j < u.len() {
            if !seen_upto(rows, n, want, u, j) {
                // Then a row would have been written for it.
                let q = lemma_missing_has(rows, want, u, u.len() as int, nl, j);
                assert(q < ms.len());
            }
            let i0 = lemma_seen_witness(rows, n, want, u, j);
            lemma_out_row_says(rows, want, u, i0, key);
            lemma_last_obs_uniform(outr, n, want, key, trim(u[j].1), i0);
        } else {
            lemma_last_obs_shift(outr, rows, 0, 0, n, want, key);
        }
    } else {
        lemma_positions(rows, want, u, nl);
        let at = at_of(rows, want);
        let hd = head_of(rows, want, nl);
        let fx = fixed_of(rows, want, u, nl);
        let bl = hd.len() + ms.len();
        // Before the insertion point, and past the inserted rows, each row
        // says what it said once its value was replaced.
        assert forall|p: int| 0 <= p < at implies #[trigger] obs(out, p, want, key) == obs(
            outr,
            p,
            want,
            key,
        ) by {
            assert(out[p] == fx[p]);
        }
        if found_of(rows, want) {
            assert forall|k: int| 0 <= k < n - at implies #[trigger] obs(out, at + bl + k, want, key)
                == obs(outr, at + k, want, key) by {
                assert(out[at + bl + k] == fx[at + k]);
                assert(section_before(out, at + bl + k) == section_before(rows, at + k));
            }
        }
        // The inserted rows.
        assert forall|p: int| at <= p < at + bl && (#[trigger] obs(out, p, want, key)) is Some
            implies j < u.len() && obs(out, p, want, key) == Some(trim(u[j].1)) by {
            if p < at + hd.len() {
                assert(out[at + (p - at)] == hd[p - at]);
            } else {
                let q = p - at - hd.len();
                assert(out[at + hd.len() + q] == ms[q]);
                assert(pm(ms[q]));
            }
        }
        if j < u.len() {
            let i0: int;
            if seen_upto(rows, n, want, u, j) {
                let i = lemma_seen_witness(rows, n, want, u, j);
                lemma_out_row_says(rows, want, u, i, key);
                if i < at {
                    i0 = i;
                } else {
                    assert(found_of(rows, want));
                    assert(obs(out, at + bl + (i - at), want, key) == obs(outr, at + (i - at), want, key));
                    i0 = i + bl;
                }
            } else {
                let q = lemma_missing_has(rows, want, u, u.len() as int, nl, j);
                assert(update_readable(u[j]));
                lemma_pair_body_reads(u[j].0, u[j].1);
                assert(row_in_section(out, at + hd.len() + q, want));
                assert(out[at + hd.len() + q] == ms[q]);
                i0 = at + hd.len() + q;
            }
            assert(obs(out, i0, want, key) is Some);
            assert forall|p: int| 0 <= p < out.len() && (#[trigger] obs(out, p, want, key)) is Some
                implies obs(out, p, want, key) == Some(trim(u[j].1)) by {
                if p < at {
                    assert(obs(out, p, want, key) == obs(outr, p, want, key));
                } else if p < at + bl {
                } else {
                    assert(found_of(rows, want));
                    assert(obs(out, at + bl + (p - at - bl), want, key) == obs(outr, at + (p - at - bl), want, key));
                }
            }
            lemma_last_obs_uniform(out, out.len() as int, want, key, trim(u[j].1), i0);
        } else {
            lemma_last_obs_shift(out, outr, 0, 0, at, want, key);
            lemma_last_obs_block(out, at, bl as int, want, key);
            if found_of(rows, want) {
                lemma_last_obs_shift(out, outr, bl as int, at, n - at, want, key);
            }
            lemma_last_obs_shift(outr, rows, 0, 0, n, want, key);
        }
    }
}

/// A value a second write leaves as it is: no newline in it, no leading
/// whitespace, no `\r` at its end.
pub open spec fn value_stable(v: Seq<u8>) -> bool {
    &&& no_byte(v, 0x0A)
    &&& trim_start(v) == v
    &&& (v.len() > 0 ==> v.last() != 0x0D)
}

/// What a row written for an update selects, and that a second write leaves
/// it alone.
proof fn lemma_pair_row_settled(u: Seq<(Seq<u8>, Seq<u8>)>, m: int, nl: Eol)
    requires
        updates_readable(u),
        0 <= m < u.len(),
        value_stable(u[m].1),
    ensures
        hit_of(pair_row(u[m], nl).body, u) == Some(m),
        settled(pair_row(u[m], nl).body, u),
        header_name(pair_row(u[m], nl).body) is None,
{
    let k = u[m].0;
    let v = u[m].1;
    let b = pair_row(u[m], nl).body;
    assert(update_readable(u[m]));
    lemma_pair_body_reads(k, v);
    assert(b.take(k.len() as int) =~= k);
    assert(b.skip(k.len() as int + 1) =~= v);
    lemma_first_match_is(u, m, k);
}

spec fn values_stable(u: Seq<(Seq<u8>, Seq<u8>)>) -> bool {
    forall|m: int| 0 <= m < u.len() ==> value_stable(#[trigger] u[m].1)
}

/// After one write, every row of the section is settled and every update
/// is found.
#[verifier::spinoff_prover]
#[verifier::rlimit(40)]
proof fn lemma_written_settled(rows: Seq<SpecRow>, want: Seq<u8>, u: Seq<(Seq<u8>, Seq<u8>)>, nl: Eol)
    requires
        updates_readable(u),
        values_stable(u),
        trim(want) == want,
    ensures
        ({
            let out = rewrite_rows(rows, want, u, nl);
            &&& forall|p: int|
                0 <= p < out.len() && in_target(out, p, want) ==> settled(#[trigger] out[p].body, u)
            &&& forall|m: int| 0 <= m < u.len() ==> #[trigger] seen_upto(out, out.len() as int, want, u, m)
        }),
{
    let n = rows.len() as int;
    let out = rewrite_rows(rows, want, u, nl);
    let outr = out_rows(rows, want, u);
    lemma_readable_writable(u);
    assert forall|m: int| 0 <= m < u.len() implies trim_start(#[trigger] u[m].1) == u[m].1 by {
        assert(value_stable(u[m].1));
    }
    lemma_out_rows_headers(rows, want, u);
    lemma_shape(rows, want, u, nl);
    assert forall|i: int| 0 <= i < n && in_target(rows, i, want) implies settled(
        #[trigger] outr[i].body,
        u,
    ) && hit_of(outr[i].body, u) == hit_of(rows[i].body, u) by {
        assert(outr[i] == out_row(rows, i, want, u));
        lemma_rewritten_settled(rows[i].body, u);
    }
    lemma_blank_row_reads();
    assert(hit_of(Seq::<u8>::empty(), u) is None) by {
        assert(ws_len_fwd(Seq::<u8>::empty()) == 0);
    }
    let ms = miss_of(rows, want, u, nl);
    if ms.len() == 0 {
        assert forall|m: int| 0 <= m < u.len() implies #[trigger] seen_upto(out, out.len() as int, want, u, m) by {
            if !seen_upto(rows, n, want, u, m) {
                let q = lemma_missing_has(rows, want, u, u.len() as int, nl, m);
                assert(q < ms.len());
            }
            let i = lemma_seen_witness(rows, n, want, u, m);
            lemma_seen_from(out, out.len() as int, want, u, m, i);
        }
    } else {
        let at = at_of(rows, want);
        let hd = head_of(rows, want, nl);
        let fx = fixed_of(rows, want, u, nl);
        let bl = hd.len() + ms.len();
        lemma_positions(rows, want, u, nl);
        let pr = |r: SpecRow| hit_of(r.body, u) is Some && settled(r.body, u) && header_name(r.body) is None;
        assert forall|j: int|
            #![trigger pair_row(u[j], nl)]
            0 <= j < u.len() && !seen_upto(rows, n, want, u, j) implies pr(pair_row(u[j], nl)) by {
            assert(value_stable(u[j].1));
            lemma_pair_row_settled(u, j, nl);
        }
        lemma_missing_all(rows, want, u, u.len() as int, nl, pr);
        assert forall|p: int| 0 <= p < out.len() && in_target(out, p, want) implies settled(
            #[trigger] out[p].body,
            u,
        ) by {
            if p < at {
                assert(out[p] == fx[p]);
            } else if p < at + hd.len() {
                assert(out[at + (p - at)] == hd[p - at]);
            } else if p < at + bl {
                let q = p - at - hd.len();
                assert(out[at + hd.len() + q] == ms[q]);
                assert(pr(ms[q]));
            } else {
                let i = p - bl;
                assert(out[at + bl + (i - at)] == fx[at + (i - at)]);
                assert(found_of(rows, want));
                assert(section_before(out, at + bl + (i - at)) == section_before(rows, at + (i - at)));
            }
        }
        assert forall|m: int| 0 <= m < u.len() implies #[trigger] seen_upto(out, out.len() as int, want, u, m) by {
            if seen_upto(rows, n, want, u, m) {
                let i = lemma_seen_witness(rows, n, want, u, m);
                if i < at {
                    assert(out[i] == fx[i]);
                    lemma_seen_from(out, out.len() as int, want, u, m, i);
                } else {
                    assert(found_of(rows, want));
                    assert(out[at + bl + (i - at)] == fx[at + (i - at)]);
                    assert(section_before(out, at + bl + (i - at)) == section_before(rows, at + (i - at)));
                    lemma_seen_from(out, out.len() as int, want, u, m, i + bl);
                }
            } else {
                let q = lemma_missing_has(rows, want, u, u.len() as int, nl, m);
                let p = at + hd.len() + q;
                assert(out[p] == ms[q]);
                lemma_pair_row_settled(u, m, nl);
                assert(row_in_section(out, at + hd.len() + q, want));
                lemma_seen_from(out, out.len() as int, want, u, m, p);
            }
        }
    }
}

/// Reading rows back keeps them settled, and keeps every update found.
#[verifier::spinoff_prover]
#[verifier::rlimit(40)]
proof fn lemma_read_back_settled(out: Seq<SpecRow>, want: Seq<u8>, u: Seq<(Seq<u8>, Seq<u8>)>)
    requires
        values_stable(u),
        forall|p: int| 0 <= p < out.len() && in_target(out, p, want) ==> settled(#[trigger] out[p].body, u),
        forall|m: int| 0 <= m < u.len() ==> #[trigger] seen_upto(out, out.len() as int, want, u, m),
    ensures
        forall|p: int|
            0 <= p < out.len() && in_target(norm_rows(out), p, want) ==> settled(
                #[trigger] norm_rows(out)[p].body,
                u,
            ),
        forall|m: int| 0 <= m < u.len() ==> #[trigger] seen_upto(norm_rows(out), out.len() as int, want, u, m),
{
    let r2 = norm_rows(out);
    let n2 = out.len() as int;
    assert forall|i: int| 0 <= i < n2 implies header_name(#[trigger] r2[0 + 0 + i].body)
        == header_name(out[0 + i].body) by {
        lemma_norm_reads_same(out[i]);
        lemma_same_reading_parts(r2[i].body, out[i].body);
    }
    assert forall|i: int| 0 <= i <= n2 implies #[trigger] section_before(r2, i) == section_before(
        out,
        i,
    ) by {
        lemma_sb_shift(r2, out, 0, 0, i);
    }
    assert forall|m: int| 0 <= m < u.len() implies (#[trigger] u[m].1).len() == 0 || u[m].1.last()
        != 0x0D by {
        assert(value_stable(u[m].1));
    }
    assert forall|p: int| 0 <= p < n2 && in_target(out, p, want) implies settled(
        #[trigger] r2[p].body,
        u,
    ) && hit_of(r2[p].body, u) == hit_of(out[p].body, u) && in_target(r2, p, want) by {
        let r = out[p];
        assert(settled(out[p].body, u));
        lemma_norm_reads_same(out[p]);
        lemma_same_reading_parts(r2[p].body, out[p].body);
        assert(section_before(r2, p) == section_before(out, p));
        if r.eol == Eol::Lf && r.body.len() > 0 && r.body.last() == 0x0D {
            let x = r.body.drop_last();
            assert(x.push(0x0D) =~= r.body);
            lemma_cr_settled(x, u);
        }
    }
    assert forall|p: int| 0 <= p < n2 && in_target(r2, p, want) implies settled(
        #[trigger] r2[p].body,
        u,
    ) by {
        lemma_norm_reads_same(out[p]);
        lemma_same_reading_parts(r2[p].body, out[p].body);
        assert(section_before(r2, p) == section_before(out, p));
        assert(in_target(out, p, want));
    }
    assert forall|m: int| 0 <= m < u.len() implies #[trigger] seen_upto(r2, n2, want, u, m) by {
        assert(seen_upto(out, n2, want, u, m));
        let p = lemma_seen_witness(out, n2, want, u, m);
        assert(settled(out[p].body, u));
        lemma_seen_from(r2, n2, want, u, m, p);
    }
}

/// Writing the same updates a second time changes nothing.
#[verifier::spinoff_prover]
#[verifier::rlimit(40)]
pub proof fn lemma_rewrite_idempotent(text: Seq<u8>, section: Seq<u8>, u: Seq<(Seq<u8>, Seq<u8>)>)
    requires
        updates_readable(u),
        forall|m: int| 0 <= m < u.len() ==> value_stable(#[trigger] u[m].1),
        no_byte(trim(section), 0x0A),
    ensures
        rewrite_spec(rewrite_spec(text, section, u), section, u) == rewrite_spec(text, section, u),
{
    let rows = split_rows(text);
    let want = trim(section);
    let nl = newline_of(text);
    let out = rewrite_rows(rows, want, u, nl);
    let after = join_rows(out);
    lemma_readable_writable(u);
    lemma_trim_idem(section);
    lemma_split_ok(text);
    lemma_rewrite_rows_ok(rows, want, u, nl);
    lemma_split_join(out);
    let rows2 = split_rows(after);
    let n2 = rows2.len() as int;
    assert(rows2 == norm_rows(out));
    lemma_written_settled(rows, want, u, nl);
    lemma_read_back_settled(out, want, u);
    let nl2 = newline_of(after);
    lemma_missing_none(rows2, want, u, u.len() as int, nl2);
    lemma_shape(rows2, want, u, nl2);
    assert(out_rows(rows2, want, u) =~= rows2) by {
        assert forall|p: int| 0 <= p < n2 implies #[trigger] out_rows(rows2, want, u)[p]
            == rows2[p] by {
            if in_target(rows2, p, want) {
                lemma_settled_rests(rows2[p].body, u);
            }
        }
    }
    lemma_join_norm(out);
}

/// The lines before the file's first header belong to no section: they
/// come out byte for byte as they went in, at the start of the new file.
#[verifier::spinoff_prover]
#[verifier::rlimit(40)]
pub proof fn lemma_rewrite_keeps_preamble(
    text: Seq<u8>,
    section: Seq<u8>,
    u: Seq<(Seq<u8>, Seq<u8>)>,
    k: int,
)
    requires
        0 <= k <= split_rows(text).len(),
        forall|i: int| 0 <= i < k ==> header_name(#[trigger] split_rows(text)[i].body) is None,
    ensures
        join_rows(split_rows(text).take(k)).is_prefix_of(rewrite_spec(text, section, u)),
{
    let rows = split_rows(text);
    let n = rows.len() as int;
    let want = trim(section);
    let nl = newline_of(text);
    let out = rewrite_rows(rows, want, u, nl);
    let outr = out_rows(rows, want, u);
    lemma_out_rows_headers(rows, want, u);
    lemma_shape(rows, want, u, nl);
    // No row before the first header sits in a section.
    assert forall|j: int| 0 <= j <= k implies #[trigger] section_before(rows, j) is None by {
        lemma_sb_block(rows, 0, j);
    }
    assert forall|i: int| 0 <= i < k implies #[trigger] outr[i] == rows[i] by {
        assert(outr[i] == out_row(rows, i, want, u));
    }
    let ms = miss_of(rows, want, u, nl);
    let at = at_of(rows, want);
    let fx = fixed_of(rows, want, u, nl);
    // The first `k` rows of the new file, and what they are written as.
    let head = if ms.len() == 0 {
        outr.take(k)
    } else {
        fx.take(k)
    };
    if ms.len() > 0 {
        if found_of(rows, want) {
            assert(k < at) by {
                if at <= k {
                    assert(section_before(rows, at) is None);
                }
            }
        }
        assert(out.take(k) =~= head);
    } else {
        assert(out.take(k) =~= head);
    }
    assert(out =~= out.take(k) + out.skip(k));
    lemma_join_rows_append(out.take(k), out.skip(k));
    // Those rows are the old ones, but for a terminator the last row of a
    // file may have gained.
    if k > 0 {
        let pre = rows.take(k - 1);
        assert(rows.take(k).drop_last() =~= pre);
        assert(head.drop_last() =~= pre);
        assert(head.last().body == rows[k - 1].body);
        assert(head.last().eol == rows[k - 1].eol || rows[k - 1].eol == Eol::Missing);
        let a = join_rows(pre) + rows[k - 1].body;
        assert(join_rows(rows.take(k)) == a + eol_bytes(rows[k - 1].eol));
        assert(join_rows(head) == a + eol_bytes(head.last().eol));
        assert(join_rows(rows.take(k)).is_prefix_of(join_rows(head)));
    } else {
        assert(join_rows(rows.take(k)) =~= Seq::<u8>::empty());
    }
}

} // verus!
