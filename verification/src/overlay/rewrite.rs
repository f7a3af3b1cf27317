//! In-place, comment-preserving ini rewriting **inside one `[Section]`**.
//!
//! The overlay is not the owner of the file it edits: the user wrote it, the
//! mod ships it with a page of explanation, and a hand-added key the overlay
//! knows nothing about must survive being edited from the menu. So the file is
//! never regenerated from the model. [`rewrite`] walks the existing text row
//! by row and changes only the value on the rows whose key it was handed,
//! inserting the keys it never found. Comments, blank lines, headers, key
//! order, key spelling, the spacing before the value and the file's line
//! endings all come out the way they went in.
//!
//! Every match is gated on the header a row falls under, read exactly the way
//! [`crate::ini`] reads it; rows before any header belong to no section and are
//! never touched. A key the section is missing is inserted under that
//! section's header (after its last `key=value` row), and a section the file
//! does not have is appended with its header first.

use vstd::prelude::*;
use vstd::string::StringSliceAdditionalSpecFns;
use vstd::utf8::*;

use crate::ini::{
    classify, eol_bytes, header_name, header_range, is_skipped, is_skipped_exec, join_rows,
    row_in_section, rows_view, section_before, split_rows, split_rows_exec, Eol, Kind, Row,
    SpecRow,
};
use crate::text::{
    eq_ic, eq_ic_at, eq_ic_exec, find_byte, first_index, push_all, push_range, trim, trim_at,
    trim_start, trim_start_at,
};

verus! {

/// One update: the key as the caller spells it, and the value to write.
pub open spec fn updates_view(u: Seq<(Vec<u8>, Vec<u8>)>) -> Seq<(Seq<u8>, Seq<u8>)> {
    u.map_values(|p: (Vec<u8>, Vec<u8>)| (p.0@, p.1@))
}

/// Index of the first update whose key matches `key` ignoring ASCII case, or
/// `u.len()`.
pub open spec fn first_match(u: Seq<(Seq<u8>, Seq<u8>)>, key: Seq<u8>) -> int
    decreases u.len(),
{
    if u.len() == 0 {
        0
    } else if eq_ic(u[0].0, key) {
        0
    } else {
        1 + first_match(u.skip(1), key)
    }
}

pub proof fn lemma_first_match(u: Seq<(Seq<u8>, Seq<u8>)>, key: Seq<u8>)
    ensures
        0 <= first_match(u, key) <= u.len(),
        forall|j: int| 0 <= j < first_match(u, key) ==> !eq_ic(#[trigger] u[j].0, key),
        first_match(u, key) < u.len() ==> eq_ic(u[first_match(u, key)].0, key),
    decreases u.len(),
{
    if u.len() > 0 && !eq_ic(u[0].0, key) {
        lemma_first_match(u.skip(1), key);
        assert forall|j: int| 0 <= j < first_match(u, key) implies !eq_ic(#[trigger] u[j].0, key) by {
            if j > 0 {
                assert(u.skip(1)[j - 1] == u[j]);
            }
        }
    }
}

/// Which update a body's key selects, if it is a `key=value` row at all.
pub open spec fn hit_of(body: Seq<u8>, u: Seq<(Seq<u8>, Seq<u8>)>) -> Option<int> {
    if is_skipped(body) {
        None
    } else {
        let e = first_index(body, 0x3D);
        if e >= body.len() {
            None
        } else {
            let j = first_match(u, trim(body.take(e)));
            if j < u.len() {
                Some(j)
            } else {
                None
            }
        }
    }
}

/// A row body with its value replaced when its key is one of the updates:
/// the key exactly as spelled, `=`, whatever whitespace sat before the old
/// value, and the new value.
pub open spec fn rewrite_body(body: Seq<u8>, u: Seq<(Seq<u8>, Seq<u8>)>) -> Seq<u8> {
    match hit_of(body, u) {
        Some(j) => {
            let e = first_index(body, 0x3D);
            let after = body.skip(e + 1);
            let gap = after.take(after.len() - trim_start(after).len());
            body.take(e) + seq![0x3Du8] + gap + u[j].1
        },
        None => body,
    }
}

/// Whether row `i` is a header.
pub open spec fn is_header(rows: Seq<SpecRow>, i: int) -> bool {
    header_name(rows[i].body) is Some
}

/// Whether row `i` is a body row under the section being written.
pub open spec fn in_target(rows: Seq<SpecRow>, i: int, want: Seq<u8>) -> bool {
    !is_header(rows, i) && row_in_section(rows, i, want)
}

/// Row `i` of the output before anything is inserted.
pub open spec fn out_row(rows: Seq<SpecRow>, i: int, want: Seq<u8>, u: Seq<(Seq<u8>, Seq<u8>)>) -> SpecRow {
    if in_target(rows, i, want) {
        SpecRow { body: rewrite_body(rows[i].body, u), eol: rows[i].eol }
    } else {
        rows[i]
    }
}

pub open spec fn out_rows(rows: Seq<SpecRow>, want: Seq<u8>, u: Seq<(Seq<u8>, Seq<u8>)>) -> Seq<SpecRow> {
    Seq::new(rows.len(), |i: int| out_row(rows, i, want, u))
}

/// Whether update `j` was found among the first `n` rows.
pub open spec fn seen_upto(rows: Seq<SpecRow>, n: int, want: Seq<u8>, u: Seq<(Seq<u8>, Seq<u8>)>, j: int) -> bool
    decreases n,
{
    if n <= 0 {
        false
    } else {
        seen_upto(rows, n - 1, want, u, j) || (in_target(rows, n - 1, want) && hit_of(
            rows[n - 1].body,
            u,
        ) == Some(j))
    }
}

/// Whether a header matching the section occurs among the first `n` rows.
pub open spec fn found_upto(rows: Seq<SpecRow>, n: int, want: Seq<u8>) -> bool
    decreases n,
{
    if n <= 0 {
        false
    } else {
        found_upto(rows, n - 1, want) || match header_name(rows[n - 1].body) {
            Some(h) => eq_ic(h, want),
            None => false,
        }
    }
}

/// A `key=value` row (not a blank, a comment or a header).
pub open spec fn is_pair_body(body: Seq<u8>) -> bool {
    !is_skipped(body) && first_index(body, 0x3D) < body.len()
}

/// Where a missing key goes, counted in rows: just past the last matching
/// header or the last `key=value` row of the section, among the first `n`.
pub open spec fn insert_at_upto(rows: Seq<SpecRow>, n: int, want: Seq<u8>) -> Option<int>
    decreases n,
{
    if n <= 0 {
        None
    } else if (match header_name(rows[n - 1].body) {
        Some(h) => eq_ic(h, want),
        None => false,
    }) || (in_target(rows, n - 1, want) && is_pair_body(rows[n - 1].body)) {
        Some(n)
    } else {
        insert_at_upto(rows, n - 1, want)
    }
}

/// `key=value` for an update, terminated by `nl`.
pub open spec fn pair_row(kv: (Seq<u8>, Seq<u8>), nl: Eol) -> SpecRow {
    SpecRow { body: kv.0 + seq![0x3Du8] + kv.1, eol: nl }
}

/// The rows for the updates among the first `m` that no row matched.
pub open spec fn missing_upto(rows: Seq<SpecRow>, want: Seq<u8>, u: Seq<(Seq<u8>, Seq<u8>)>, m: int, nl: Eol) -> Seq<SpecRow>
    decreases m,
{
    if m <= 0 {
        seq![]
    } else {
        let prev = missing_upto(rows, want, u, m - 1, nl);
        if seen_upto(rows, rows.len() as int, want, u, m - 1) {
            prev
        } else {
            prev.push(pair_row(u[m - 1], nl))
        }
    }
}

/// Whether the text holds a `\r\n` anywhere, which decides the terminator of
/// every inserted row.
pub open spec fn has_crlf(text: Seq<u8>) -> bool {
    exists|i: int| 0 <= i < text.len() - 1 && #[trigger] crlf_at(text, i)
}

pub open spec fn crlf_at(text: Seq<u8>, i: int) -> bool {
    text[i] == 0x0D && text[i + 1] == 0x0A
}

pub open spec fn newline_of(text: Seq<u8>) -> Eol {
    if has_crlf(text) {
        Eol::CrLf
    } else {
        Eol::Lf
    }
}

/// The rows inserted ahead of the missing keys when the section is absent: a
/// blank separator when the file has anything in it, then `[section]`.
pub open spec fn new_header_rows(n: int, want: Seq<u8>, nl: Eol) -> Seq<SpecRow> {
    let header = SpecRow { body: seq![0x5Bu8] + want + seq![0x5Du8], eol: nl };
    if n > 0 {
        seq![SpecRow { body: seq![], eol: nl }, header]
    } else {
        seq![header]
    }
}

/// The rows of the rewritten file.
pub open spec fn rewrite_rows(rows: Seq<SpecRow>, want: Seq<u8>, u: Seq<(Seq<u8>, Seq<u8>)>, nl: Eol) -> Seq<SpecRow> {
    let n = rows.len() as int;
    let outr = out_rows(rows, want, u);
    let miss = missing_upto(rows, want, u, u.len() as int, nl);
    if miss.len() == 0 {
        outr
    } else {
        let found = found_upto(rows, n, want);
        let inserted = if found {
            miss
        } else {
            new_header_rows(n, want, nl) + miss
        };
        let at = if found {
            match insert_at_upto(rows, n, want) {
                Some(a) => a,
                None => n,
            }
        } else {
            n
        };
        let fixed = if at > 0 && outr[at - 1].eol == Eol::Missing {
            outr.update(at - 1, SpecRow { body: outr[at - 1].body, eol: nl })
        } else {
            outr
        };
        fixed.take(at) + inserted + fixed.skip(at)
    }
}

/// `rewrite` on bytes: what the new file holds.
pub open spec fn rewrite_spec(text: Seq<u8>, section: Seq<u8>, u: Seq<(Seq<u8>, Seq<u8>)>) -> Seq<u8> {
    join_rows(rewrite_rows(split_rows(text), trim(section), u, newline_of(text)))
}

// ---------------------------------------------------------------------------
// Lemmas
// ---------------------------------------------------------------------------

pub proof fn lemma_join_rows_append(a: Seq<SpecRow>, b: Seq<SpecRow>)
    ensures
        join_rows(a + b) == join_rows(a) + join_rows(b),
    decreases b.len(),
{
    if b.len() == 0 {
        assert(a + b =~= a);
        assert(join_rows(a) + join_rows(b) =~= join_rows(a));
    } else {
        lemma_join_rows_append(a, b.drop_last());
        assert((a + b).drop_last() =~= a + b.drop_last());
        assert((a + b).last() == b.last());
        assert(join_rows(a + b) =~= join_rows(a) + join_rows(b));
    }
}

proof fn lemma_insert_at_bound(rows: Seq<SpecRow>, n: int, want: Seq<u8>)
    requires
        0 <= n,
    ensures
        match insert_at_upto(rows, n, want) {
            Some(a) => 0 < a <= n,
            None => true,
        },
        found_upto(rows, n, want) ==> insert_at_upto(rows, n, want) is Some,
    decreases n,
{
    if n > 0 {
        lemma_insert_at_bound(rows, n - 1, want);
    }
}

// ---------------------------------------------------------------------------
// Executable
// ---------------------------------------------------------------------------

/// Index of the first update whose key matches `body[lo..hi]` ignoring case.
fn first_match_exec(u: &[(Vec<u8>, Vec<u8>)], body: &[u8], lo: usize, hi: usize) -> (r: usize)
    requires
        lo <= hi <= body@.len(),
    ensures
        r == first_match(updates_view(u@), body@.subrange(lo as int, hi as int)),
{
    let ghost uv = updates_view(u@);
    let ghost key = body@.subrange(lo as int, hi as int);
    let mut j: usize = 0;
    while j < u.len()
        invariant
            lo <= hi <= body@.len(),
            key == body@.subrange(lo as int, hi as int),
            uv == updates_view(u@),
            0 <= j <= u@.len(),
            forall|k: int| 0 <= k < j ==> !eq_ic(#[trigger] uv[k].0, key),
        decreases u@.len() - j,
    {
        proof {
            assert(uv[j as int] == (u@[j as int].0@, u@[j as int].1@));
        }
        let ki = &u[j].0;
        if ki.len() == hi - lo && eq_ic_at(body, lo, hi, ki.as_slice()) {
            proof {
                assert(eq_ic(key, ki@));
                assert(eq_ic(ki@, key));
                lemma_first_match(uv, key);
                let f = first_match(uv, key);
                if f < j {
                    assert(!eq_ic(uv[f].0, key));
                }
                if f > j {
                    assert(!eq_ic(uv[j as int].0, key));
                }
            }
            return j;
        }
        proof {
            if eq_ic(ki@, key) {
                assert(eq_ic(key, ki@));
            }
        }
        j = j + 1;
    }
    proof {
        lemma_first_match(uv, key);
        let f = first_match(uv, key);
        if f < j {
            assert(!eq_ic(uv[f].0, key));
        }
    }
    j
}

/// One row body rewritten, and the update it matched.
fn rewrite_line(body: &[u8], u: &[(Vec<u8>, Vec<u8>)]) -> (r: (Vec<u8>, Option<usize>))
    ensures
        r.0@ == rewrite_body(body@, updates_view(u@)),
        match r.1 {
            Some(j) => hit_of(body@, updates_view(u@)) == Some(j as int),
            None => hit_of(body@, updates_view(u@)) is None,
        },
{
    let ghost uv = updates_view(u@);
    let mut copy: Vec<u8> = Vec::new();
    push_all(&mut copy, body);
    proof {
        assert(copy@ =~= body@);
    }
    if is_skipped_exec(body) {
        return (copy, None);
    }
    let n = body.len();
    let e = find_byte(body, 0, n, 0x3D);
    proof {
        assert(body@.subrange(0, n as int) =~= body@);
    }
    if e == n {
        return (copy, None);
    }
    let (ka, kb) = trim_at(body, 0, e);
    proof {
        assert(body@.subrange(0, e as int) =~= body@.take(e as int));
    }
    let j = first_match_exec(u, body, ka, kb);
    proof {
        lemma_first_match(uv, body@.subrange(ka as int, kb as int));
    }
    if j == u.len() {
        return (copy, None);
    }
    let g = trim_start_at(body, e + 1, n);
    let mut out: Vec<u8> = Vec::new();
    push_range(&mut out, body, 0, e);
    out.push(0x3D);
    push_range(&mut out, body, e + 1, g);
    push_all(&mut out, u[j].1.as_slice());
    proof {
        let after = body@.skip(e + 1);
        assert(after =~= body@.subrange(e + 1, n as int));
        let gap = after.take(after.len() - trim_start(after).len());
        assert(gap =~= body@.subrange(e + 1, g as int));
        assert(uv[j as int].1 == u@[j as int].1@);
        assert(out@ =~= body@.take(e as int) + seq![0x3Du8] + gap + uv[j as int].1);
    }
    (out, Some(j))
}

/// Whether `text` holds a `\r\n`.
fn has_crlf_exec(text: &[u8]) -> (r: bool)
    ensures
        r == has_crlf(text@),
{
    let mut i: usize = 0;
    while text.len() > 0 && i < text.len() - 1
        invariant
            i <= text@.len(),
            forall|k: int| 0 <= k < i && k < text@.len() - 1 ==> !#[trigger] crlf_at(text@, k),
        decreases text@.len() - i,
    {
        if text[i] == 0x0D && text[i + 1] == 0x0A {
            proof {
                assert(crlf_at(text@, i as int));
            }
            return true;
        }
        i = i + 1;
    }
    false
}

/// Append the rows `rows[lo..hi]`, bodies and terminators, to `out`.
fn append_rows(out: &mut Vec<u8>, rows: &Vec<Row>, lo: usize, hi: usize)
    requires
        lo <= hi <= rows@.len(),
    ensures
        final(out)@ == old(out)@ + join_rows(rows_view(rows@).subrange(lo as int, hi as int)),
{
    let ghost start = out@;
    let ghost rv = rows_view(rows@);
    let mut i = lo;
    proof {
        assert(rv.subrange(lo as int, lo as int) =~= Seq::<SpecRow>::empty());
        assert(start + join_rows(Seq::<SpecRow>::empty()) =~= start);
    }
    while i < hi
        invariant
            lo <= i <= hi <= rows@.len(),
            rv == rows_view(rows@),
            out@ == start + join_rows(rv.subrange(lo as int, i as int)),
        decreases hi - i,
    {
        push_all(out, rows[i].body.as_slice());
        match rows[i].eol {
            Eol::Missing => {},
            Eol::Lf => {
                out.push(0x0A);
            },
            Eol::CrLf => {
                out.push(0x0D);
                out.push(0x0A);
            },
        }
        proof {
            let next = rv.subrange(lo as int, i + 1);
            assert(next.drop_last() =~= rv.subrange(lo as int, i as int));
            assert(next.last() == rows@[i as int]@);
            assert(out@ =~= start + join_rows(next));
        }
        i = i + 1;
    }
}

fn copy_row(r: &Row) -> (c: Row)
    ensures
        c@ == r@,
{
    let mut body: Vec<u8> = Vec::new();
    push_all(&mut body, r.body.as_slice());
    proof {
        assert(body@ =~= r.body@);
    }
    Row { body, eol: r.eol }
}

/// The row-by-row pass: every row copied or rewritten, which updates were
/// found, whether the section's header was, and where a missing key goes.
fn rewrite_pass(rows: &Vec<Row>, want: &Vec<u8>, updates: &[(Vec<u8>, Vec<u8>)]) -> (r: (
    Vec<Row>,
    Vec<bool>,
    bool,
    Option<usize>,
))
    ensures
        ({
            let (out, seen, found, insert_at) = r;
            let rv = rows_view(rows@);
            let uv = updates_view(updates@);
            &&& rows_view(out@) == out_rows(rv, want@, uv)
            &&& seen@.len() == updates@.len()
            &&& forall|j: int| 0 <= j < seen@.len() ==> seen@[j] == seen_upto(rv, rv.len() as int, want@, uv, j)
            &&& found == found_upto(rv, rv.len() as int, want@)
            &&& match insert_at {
                Some(a) => insert_at_upto(rv, rv.len() as int, want@) == Some(a as int),
                None => insert_at_upto(rv, rv.len() as int, want@) is None,
            }
        }),
{
    let ghost uv = updates_view(updates@);
    let ghost rv = rows_view(rows@);
    let mut seen: Vec<bool> = Vec::new();
    let mut k: usize = 0;
    while k < updates.len()
        invariant
            0 <= k <= updates@.len(),
            seen@.len() == k,
            forall|j: int| 0 <= j < k ==> !seen@[j],
        decreases updates@.len() - k,
    {
        seen.push(false);
        k = k + 1;
    }
    let mut out: Vec<Row> = Vec::new();
    let mut inside = false;
    let mut found = false;
    let mut insert_at: Option<usize> = None;
    let mut i: usize = 0;
    while i < rows.len()
        invariant
            0 <= i <= rows@.len(),
            rv == rows_view(rows@),
            uv == updates_view(updates@),
            seen@.len() == updates@.len(),
            inside == row_in_section(rv, i as int, want@),
            found == found_upto(rv, i as int, want@),
            match insert_at {
                Some(a) => insert_at_upto(rv, i as int, want@) == Some(a as int),
                None => insert_at_upto(rv, i as int, want@) is None,
            },
            forall|j: int| 0 <= j < seen@.len() ==> seen@[j] == seen_upto(rv, i as int, want@, uv, j),
            out@.len() == i,
            forall|t: int| 0 <= t < i ==> (#[trigger] out@[t])@ == out_row(rv, t, want@, uv),
        decreases rows@.len() - i,
    {
        proof {
            assert(rv[i as int] == rows@[i as int]@);
        }
        let row = &rows[i];
        let ghost old_out = out@;
        match header_range(&row.body) {
            Some((a, b)) => {
                inside = eq_ic_at(&row.body, a, b, want);
                out.push(copy_row(row));
                if inside {
                    found = true;
                    insert_at = Some(i + 1);
                }
                proof {
                    assert forall|t: int| 0 <= t < i + 1 implies (#[trigger] out@[t])@ == out_row(
                        rv,
                        t,
                        want@,
                        uv,
                    ) by {
                        if t < i {
                            assert(out@[t] == old_out[t]);
                        }
                    }
                }
            },
            None => {
                let (body, hit) = if inside {
                    rewrite_line(&row.body, updates)
                } else {
                    let c = copy_row(row);
                    (c.body, None)
                };
                match hit {
                    Some(j) => {
                        seen.set(j, true);
                    },
                    None => {},
                }
                let pair = inside && !is_skipped_exec(&row.body) && find_byte(
                    &row.body,
                    0,
                    row.body.len(),
                    0x3D,
                ) < row.body.len();
                proof {
                    assert(row.body@.subrange(0, row.body@.len() as int) =~= row.body@);
                }
                out.push(Row { body, eol: row.eol });
                if pair {
                    insert_at = Some(i + 1);
                }
                proof {
                    assert forall|t: int| 0 <= t < i + 1 implies (#[trigger] out@[t])@ == out_row(
                        rv,
                        t,
                        want@,
                        uv,
                    ) by {
                        if t < i {
                            assert(out@[t] == old_out[t]);
                        }
                    }
                }
            },
        }
        i = i + 1;
    }
    proof {
        assert(rows_view(out@) =~= out_rows(rv, want@, uv));
    }
    (out, seen, found, insert_at)
}

/// The rows for the updates no row matched, in update order.
fn missing_rows(
    seen: &Vec<bool>,
    updates: &[(Vec<u8>, Vec<u8>)],
    nl: Eol,
    Ghost(rv): Ghost<Seq<SpecRow>>,
    Ghost(want): Ghost<Seq<u8>>,
) -> (miss: Vec<Row>)
    requires
        seen@.len() == updates@.len(),
        forall|j: int| 0 <= j < seen@.len() ==> seen@[j] == seen_upto(rv, rv.len() as int, want, updates_view(updates@), j),
    ensures
        rows_view(miss@) == missing_upto(rv, want, updates_view(updates@), updates@.len() as int, nl),
{
    let ghost uv = updates_view(updates@);
    let mut miss: Vec<Row> = Vec::new();
    let mut m: usize = 0;
    while m < updates.len()
        invariant
            0 <= m <= updates@.len(),
            seen@.len() == updates@.len(),
            uv == updates_view(updates@),
            forall|j: int| 0 <= j < seen@.len() ==> seen@[j] == seen_upto(rv, rv.len() as int, want, uv, j),
            rows_view(miss@) == missing_upto(rv, want, uv, m as int, nl),
        decreases updates@.len() - m,
    {
        if !seen[m] {
            let ghost before = rows_view(miss@);
            let mut body: Vec<u8> = Vec::new();
            push_all(&mut body, updates[m].0.as_slice());
            body.push(0x3D);
            push_all(&mut body, updates[m].1.as_slice());
            proof {
                assert(uv[m as int] == (updates@[m as int].0@, updates@[m as int].1@));
                assert(body@ =~= pair_row(uv[m as int], nl).body);
            }
            miss.push(Row { body, eol: nl });
            proof {
                assert(rows_view(miss@) =~= before.push(pair_row(uv[m as int], nl)));
            }
        }
        m = m + 1;
    }
    miss
}

/// Rewrite `text` so that every key in `updates` carries its given value
/// within `section`, leaving every other section, and everything before the
/// first header, exactly as it was.
///
/// Matching is case-insensitive on the key. A key that appears more than once
/// inside the section has every occurrence updated. Keys the section does not
/// have are inserted after its last `key=value` row, or, when the file has no
/// such header, appended as a fresh `[section]` block.
pub fn rewrite_bytes(text: &[u8], section: &[u8], updates: &[(Vec<u8>, Vec<u8>)]) -> (r: Vec<u8>)
    ensures
        r@ == rewrite_spec(text@, section@, updates_view(updates@)),
{
    let ghost uv = updates_view(updates@);
    let (wa, wb) = trim_at(section, 0, section.len());
    let mut want: Vec<u8> = Vec::new();
    push_range(&mut want, section, wa, wb);
    proof {
        assert(section@.subrange(0, section@.len() as int) =~= section@);
    }
    let nl = if has_crlf_exec(text) {
        Eol::CrLf
    } else {
        Eol::Lf
    };
    let rows = split_rows_exec(text);
    let ghost rv = rows_view(rows@);
    let n = rows.len();
    let (mut out, seen, found, insert_at) = rewrite_pass(&rows, &want, updates);
    let ghost outr = out_rows(rv, want@, uv);
    proof {
        assert(rows_view(out@).len() == out@.len());
        assert(rv.len() == rows@.len());
    }
    let miss = missing_rows(&seen, updates, nl, Ghost(rv), Ghost(want@));
    let mut result: Vec<u8> = Vec::new();
    if miss.len() == 0 {
        append_rows(&mut result, &out, 0, n);
        proof {
            assert(rows_view(out@).subrange(0, n as int) =~= rows_view(out@));
        }
        return result;
    }
    let inserted = inserted_rows(&miss, found, n, &want, nl);
    proof {
        lemma_insert_at_bound(rv, n as int, want@);
    }
    let at = if found {
        match insert_at {
            Some(a) => a,
            None => n,
        }
    } else {
        n
    };
    let ghost fixed = if at > 0 && outr[at - 1].eol == Eol::Missing {
        outr.update(at - 1, SpecRow { body: outr[at - 1].body, eol: nl })
    } else {
        outr
    };
    if at > 0 {
        match out[at - 1].eol {
            Eol::Missing => {
                let prev = copy_row(&out[at - 1]);
                out.set(at - 1, Row { body: prev.body, eol: nl });
            },
            _ => {},
        }
    }
    proof {
        assert(rows_view(out@) =~= fixed);
    }
    append_rows(&mut result, &out, 0, at);
    let k2 = inserted.len();
    append_rows(&mut result, &inserted, 0, k2);
    append_rows(&mut result, &out, at, n);
    proof {
        let ins = rows_view(inserted@);
        assert(ins.subrange(0, k2 as int) =~= ins);
        assert(fixed.subrange(0, at as int) =~= fixed.take(at as int));
        assert(fixed.subrange(at as int, n as int) =~= fixed.skip(at as int));
        lemma_join_rows_append(fixed.take(at as int), ins);
        lemma_join_rows_append(fixed.take(at as int) + ins, fixed.skip(at as int));
    }
    result
}

/// The block that goes in: the header (and a blank line before it) when the
/// section is new, then the missing keys.
fn inserted_rows(miss: &Vec<Row>, found: bool, n: usize, want: &Vec<u8>, nl: Eol) -> (inserted: Vec<Row>)
    ensures
        rows_view(inserted@) == (if found {
            rows_view(miss@)
        } else {
            new_header_rows(n as int, want@, nl) + rows_view(miss@)
        }),
{
    let mut inserted: Vec<Row> = Vec::new();
    if !found {
        if n > 0 {
            inserted.push(Row { body: Vec::new(), eol: nl });
            proof {
                assert(rows_view(inserted@) =~= seq![SpecRow { body: seq![], eol: nl }]);
            }
        }
        let ghost before = rows_view(inserted@);
        let mut h: Vec<u8> = Vec::new();
        h.push(0x5B);
        push_all(&mut h, want.as_slice());
        h.push(0x5D);
        let ghost hv = h@;
        inserted.push(Row { body: h, eol: nl });
        proof {
            assert(hv =~= seq![0x5Bu8] + want@ + seq![0x5Du8]);
            assert(rows_view(inserted@) =~= before.push(SpecRow { body: hv, eol: nl }));
            assert(rows_view(inserted@) =~= new_header_rows(n as int, want@, nl));
        }
    } else {
        proof {
            assert(rows_view(inserted@) =~= Seq::<SpecRow>::empty());
        }
    }
    let ghost head = rows_view(inserted@);
    let mut q: usize = 0;
    while q < miss.len()
        invariant
            0 <= q <= miss@.len(),
            rows_view(inserted@) == head + rows_view(miss@).subrange(0, q as int),
        decreases miss@.len() - q,
    {
        let c = copy_row(&miss[q]);
        let ghost before = rows_view(inserted@);
        let ghost cv = c@;
        inserted.push(c);
        proof {
            assert(rows_view(inserted@) =~= before.push(cv));
            assert(rows_view(miss@).subrange(0, q + 1) =~= rows_view(miss@).subrange(
                0,
                q as int,
            ).push(miss@[q as int]@));
            assert(rows_view(inserted@) =~= head + rows_view(miss@).subrange(0, q + 1));
        }
        q = q + 1;
    }
    proof {
        assert(rows_view(miss@).subrange(0, miss@.len() as int) =~= rows_view(miss@));
        if found {
            assert(head + rows_view(miss@) =~= rows_view(miss@));
        }
    }
    inserted
}

// ---------------------------------------------------------------------------
// Well-formed text in, well-formed text out
// ---------------------------------------------------------------------------

pub open spec fn rows_valid(rows: Seq<SpecRow>) -> bool {
    forall|i: int| 0 <= i < rows.len() ==> valid_utf8(#[trigger] rows[i].body)
}

pub open spec fn updates_valid(u: Seq<(Seq<u8>, Seq<u8>)>) -> bool {
    forall|i: int| 0 <= i < u.len() ==> valid_utf8(#[trigger] u[i].0) && valid_utf8(u[i].1)
}

proof fn lemma_eol_valid(e: Eol)
    ensures
        valid_utf8(eol_bytes(e)),
{
    crate::utf8_cuts::lemma_ascii_valid(eol_bytes(e));
}

proof fn lemma_join_valid(rows: Seq<SpecRow>)
    requires
        rows_valid(rows),
    ensures
        valid_utf8(join_rows(rows)),
    decreases rows.len(),
{
    if rows.len() > 0 {
        let init = rows.drop_last();
        assert(rows_valid(init)) by {
            assert forall|i: int| 0 <= i < init.len() implies valid_utf8(#[trigger] init[i].body) by {
                assert(init[i] == rows[i]);
            }
        }
        lemma_join_valid(init);
        lemma_eol_valid(rows.last().eol);
        assert(valid_utf8(rows.last().body));
        valid_utf8_concat(join_rows(init), rows.last().body);
        valid_utf8_concat(join_rows(init) + rows.last().body, eol_bytes(rows.last().eol));
    }
}

proof fn lemma_rewrite_body_valid(body: Seq<u8>, u: Seq<(Seq<u8>, Seq<u8>)>)
    requires
        valid_utf8(body),
        updates_valid(u),
    ensures
        valid_utf8(rewrite_body(body, u)),
{
    match hit_of(body, u) {
        Some(j) => {
            let e = first_index(body, 0x3D);
            crate::text::lemma_first_index(body, 0x3D);
            crate::utf8_cuts::lemma_split_at_ascii(body, e);
            let after = body.skip(e + 1);
            crate::utf8_cuts::lemma_trim_start_cut(after);
            let gap = after.take(after.len() - trim_start(after).len());
            let eq = seq![0x3Du8];
            crate::utf8_cuts::lemma_ascii_valid(eq);
            lemma_first_match(u, trim(body.take(e)));
            assert(valid_utf8(u[j].1));
            valid_utf8_concat(body.take(e), eq);
            valid_utf8_concat(body.take(e) + eq, gap);
            valid_utf8_concat(body.take(e) + eq + gap, u[j].1);
        },
        None => {},
    }
}

proof fn lemma_missing_valid(rows: Seq<SpecRow>, want: Seq<u8>, u: Seq<(Seq<u8>, Seq<u8>)>, m: int, nl: Eol)
    requires
        updates_valid(u),
        m <= u.len(),
    ensures
        rows_valid(missing_upto(rows, want, u, m, nl)),
    decreases m,
{
    if m > 0 {
        lemma_missing_valid(rows, want, u, m - 1, nl);
        let prev = missing_upto(rows, want, u, m - 1, nl);
        let kv = u[m - 1];
        let eq = seq![0x3Du8];
        crate::utf8_cuts::lemma_ascii_valid(eq);
        valid_utf8_concat(kv.0, eq);
        valid_utf8_concat(kv.0 + eq, kv.1);
        let cur = missing_upto(rows, want, u, m, nl);
        assert forall|i: int| 0 <= i < cur.len() implies valid_utf8(#[trigger] cur[i].body) by {
            if i < prev.len() {
                assert(cur[i] == prev[i]);
            }
        }
    }
}

proof fn lemma_rewrite_rows_valid(rows: Seq<SpecRow>, want: Seq<u8>, u: Seq<(Seq<u8>, Seq<u8>)>, nl: Eol)
    requires
        rows_valid(rows),
        valid_utf8(want),
        updates_valid(u),
    ensures
        rows_valid(rewrite_rows(rows, want, u, nl)),
{
    let n = rows.len() as int;
    let outr = out_rows(rows, want, u);
    assert forall|i: int| 0 <= i < outr.len() implies valid_utf8(#[trigger] outr[i].body) by {
        if in_target(rows, i, want) {
            lemma_rewrite_body_valid(rows[i].body, u);
        }
    }
    let miss = missing_upto(rows, want, u, u.len() as int, nl);
    lemma_missing_valid(rows, want, u, u.len() as int, nl);
    if miss.len() > 0 {
        let found = found_upto(rows, n, want);
        let lb = seq![0x5Bu8];
        let rb = seq![0x5Du8];
        crate::utf8_cuts::lemma_ascii_valid(lb);
        crate::utf8_cuts::lemma_ascii_valid(rb);
        crate::utf8_cuts::lemma_ascii_valid(seq![]);
        valid_utf8_concat(lb, want);
        valid_utf8_concat(lb + want, rb);
        let hdr = new_header_rows(n, want, nl);
        assert(rows_valid(hdr));
        let inserted = if found { miss } else { hdr + miss };
        assert forall|i: int| 0 <= i < inserted.len() implies valid_utf8(#[trigger] inserted[i].body) by {
            if !found {
                if i < hdr.len() {
                    assert(inserted[i] == hdr[i]);
                } else {
                    assert(inserted[i] == miss[i - hdr.len()]);
                }
            }
        }
        let at = if found {
            match insert_at_upto(rows, n, want) {
                Some(a) => a,
                None => n,
            }
        } else {
            n
        };
        lemma_insert_at_bound(rows, n, want);
        let fixed = if at > 0 && outr[at - 1].eol == Eol::Missing {
            outr.update(at - 1, SpecRow { body: outr[at - 1].body, eol: nl })
        } else {
            outr
        };
        assert(rows_valid(fixed)) by {
            assert forall|i: int| 0 <= i < fixed.len() implies valid_utf8(#[trigger] fixed[i].body) by {
                assert(fixed[i].body == outr[i].body);
            }
        }
        let res = fixed.take(at) + inserted + fixed.skip(at);
        assert(res == rewrite_rows(rows, want, u, nl));
        assert forall|i: int| 0 <= i < res.len() implies valid_utf8(#[trigger] res[i].body) by {
            if i < at {
                assert(res[i] == fixed[i]);
            } else if i < at + inserted.len() {
                assert(res[i] == inserted[i - at]);
            } else {
                assert(res[i] == fixed[i - inserted.len()]);
            }
        }
    }
}

/// The rewrite of well-formed text, with well-formed updates, is
/// well-formed.
pub proof fn lemma_rewrite_valid(text: Seq<u8>, section: Seq<u8>, u: Seq<(Seq<u8>, Seq<u8>)>)
    requires
        valid_utf8(text),
        valid_utf8(section),
        updates_valid(u),
    ensures
        valid_utf8(rewrite_spec(text, section, u)),
{
    crate::ini::lemma_rows_valid(text);
    crate::utf8_cuts::lemma_trim_valid(section);
    lemma_rewrite_rows_valid(split_rows(text), trim(section), u, newline_of(text));
    lemma_join_valid(rewrite_rows(split_rows(text), trim(section), u, newline_of(text)));
}

/// The updates a caller hands [`rewrite`], as bytes.
pub open spec fn str_updates(u: Seq<(&str, String)>) -> Seq<(Seq<u8>, Seq<u8>)> {
    u.map_values(|p: (&str, String)| (p.0.spec_bytes(), encode_utf8(p.1@)))
}

/// Rewrite `text` so that every key in `updates` carries its given value
/// within `section`, leaving every other section, and everything before the
/// first header, exactly as it was.
///
/// Matching is case-insensitive on the key. A key that appears more than
/// once inside the section has every occurrence updated. Keys the section
/// does not have are inserted after its last `key=value` line, or, when the
/// file has no such header, appended as a fresh `[section]` block.
pub fn rewrite(text: &str, section: &str, updates: &[(&str, String)]) -> (r: String)
    ensures
        encode_utf8(r@) == rewrite_spec(text.spec_bytes(), section.spec_bytes(), str_updates(updates@)),
{
    let mut u: Vec<(Vec<u8>, Vec<u8>)> = Vec::new();
    let mut i: usize = 0;
    while i < updates.len()
        invariant
            0 <= i <= updates@.len(),
            updates_view(u@) == str_updates(updates@.take(i as int)),
        decreases updates@.len() - i,
    {
        let mut k: Vec<u8> = Vec::new();
        push_all(&mut k, updates[i].0.as_bytes());
        let mut v: Vec<u8> = Vec::new();
        push_all(&mut v, updates[i].1.as_str().as_bytes());
        let ghost before = u@;
        u.push((k, v));
        proof {
            assert(updates@.take(i + 1) =~= updates@.take(i as int).push(updates@[i as int]));
            assert(updates_view(u@) =~= updates_view(before).push((k@, v@)));
            assert(str_updates(updates@.take(i + 1)) =~= str_updates(updates@.take(i as int)).push((k@, v@)));
        }
        i = i + 1;
    }
    proof {
        assert(updates@.take(updates@.len() as int) =~= updates@);
    }
    let out = rewrite_bytes(text.as_bytes(), section.as_bytes(), u.as_slice());
    proof {
        encode_utf8_valid_utf8(text@);
        encode_utf8_valid_utf8(section@);
        let su = str_updates(updates@);
        assert forall|j: int| 0 <= j < su.len() implies valid_utf8(#[trigger] su[j].0) && valid_utf8(su[j].1) by {
            encode_utf8_valid_utf8(updates@[j].0@);
            encode_utf8_valid_utf8(updates@[j].1@);
        }
        lemma_rewrite_valid(text.spec_bytes(), section.spec_bytes(), su);
    }
    crate::strings::utf8_string(out)
}

/// Where the atomic write stages the new content: the target's name with
/// `.tmp` appended, in the same directory.
pub fn temp_path(path: &str) -> (r: String)
    ensures
        encode_utf8(r@) == path.spec_bytes() + ".tmp".spec_bytes(),
{
    let mut out: Vec<u8> = Vec::new();
    crate::strings::push_str(&mut out, path);
    crate::strings::push_str(&mut out, ".tmp");
    proof {
        encode_utf8_valid_utf8(path@);
        encode_utf8_valid_utf8(".tmp"@);
        valid_utf8_concat(path.spec_bytes(), ".tmp".spec_bytes());
    }
    crate::strings::utf8_string(out)
}

} // verus!
