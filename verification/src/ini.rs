//! The ini reader every subsystem's parser is built on, and the row model the
//! overlay's rewriter shares with it.
//!
//! A file is a sequence of rows: each row is its body and the terminator it
//! carried (`\n`, `\r\n`, or nothing on a last line that had none). A body is
//! read as a header when its trimmed text opens with `[`; otherwise it is
//! skipped when its trimmed text is empty or opens with `;` or `#`; otherwise
//! it is a `key=value` pair split at its first `=`, key and value trimmed, or
//! a bad line when it holds no `=` at all. A section is every row after a
//! header whose name matches (trimmed, ASCII case-insensitive), up to the next
//! header; a repeated header continues the same section, and rows before the
//! first header belong to none.

use vstd::prelude::*;

use vstd::utf8::valid_utf8;

use crate::text::{eq_ic, eq_ic_at, find_byte, first_index, lemma_first_index, push_range, trim, trim_at, trim_start, trim_start_at};
use crate::utf8_cuts::{lemma_ascii_valid, lemma_split_at_ascii, lemma_trim_start_cut, lemma_trim_valid};

verus! {

/// What ends a row.
#[derive(Clone, Copy, PartialEq, Eq, Debug)]
pub enum Eol {
    /// The last row of a file that does not end in a newline.
    Missing,
    Lf,
    CrLf,
}

pub open spec fn eol_bytes(e: Eol) -> Seq<u8> {
    match e {
        Eol::Missing => seq![],
        Eol::Lf => seq![0x0Au8],
        Eol::CrLf => seq![0x0Du8, 0x0Au8],
    }
}

/// One row of a file, as the model sees it.
pub struct SpecRow {
    pub body: Seq<u8>,
    pub eol: Eol,
}

/// The rows of `s`: `split_inclusive('\n')`, each piece's `\n` or `\r\n`
/// taken off as its terminator.
pub open spec fn split_rows(s: Seq<u8>) -> Seq<SpecRow>
    decreases s.len(),
{
    if s.len() == 0 {
        seq![]
    } else {
        let i = first_index(s, 0x0A);
        if i >= s.len() || i < 0 {
            seq![SpecRow { body: s, eol: Eol::Missing }]
        } else {
            let row = if i > 0 && s[i - 1] == 0x0D {
                SpecRow { body: s.take(i - 1), eol: Eol::CrLf }
            } else {
                SpecRow { body: s.take(i), eol: Eol::Lf }
            };
            seq![row] + split_rows(s.skip(i + 1))
        }
    }
}

/// The rows written back out, each body followed by its terminator.
pub open spec fn join_rows(rows: Seq<SpecRow>) -> Seq<u8>
    decreases rows.len(),
{
    if rows.len() == 0 {
        seq![]
    } else {
        join_rows(rows.drop_last()) + rows.last().body + eol_bytes(rows.last().eol)
    }
}

/// The header name a body names, when it is a header: what sits between the
/// brackets of its trimmed text, the closing bracket optional, trimmed again.
pub open spec fn header_name(body: Seq<u8>) -> Option<Seq<u8>> {
    let t = trim(body);
    if t.len() > 0 && t[0] == 0x5B {
        let rest = t.skip(1);
        let inner = if rest.len() > 0 && rest.last() == 0x5D {
            rest.drop_last()
        } else {
            rest
        };
        Some(trim(inner))
    } else {
        None
    }
}

/// A body that is neither a header nor a pair nor a bad line: blank, or a
/// `;` / `#` comment.
pub open spec fn is_skipped(body: Seq<u8>) -> bool {
    let t = trim_start(body);
    t.len() == 0 || t[0] == 0x3B || t[0] == 0x23 || t[0] == 0x5B
}

/// What a body says, as the reader sees it.
pub enum Kind {
    Skip,
    Header(Seq<u8>),
    Pair(Seq<u8>, Seq<u8>),
    Bad,
}

pub open spec fn classify(body: Seq<u8>) -> Kind {
    match header_name(body) {
        Some(n) => Kind::Header(n),
        None => if is_skipped(body) {
            Kind::Skip
        } else {
            let e = first_index(body, 0x3D);
            if e < body.len() {
                Kind::Pair(trim(body.take(e)), trim(body.skip(e + 1)))
            } else {
                Kind::Bad
            }
        },
    }
}

/// The name of the header in force just before row `n`, if any.
pub open spec fn section_before(rows: Seq<SpecRow>, n: int) -> Option<Seq<u8>>
    decreases n,
{
    if n <= 0 {
        None
    } else {
        match classify(rows[n - 1].body) {
            Kind::Header(h) => Some(h),
            _ => section_before(rows, n - 1),
        }
    }
}

/// Whether row `i` sits under a header matching `want` (already trimmed).
pub open spec fn row_in_section(rows: Seq<SpecRow>, i: int, want: Seq<u8>) -> bool {
    match section_before(rows, i) {
        Some(h) => eq_ic(h, want),
        None => false,
    }
}

/// One line the reader hands a parser.
pub enum SpecLine {
    Pair(Seq<u8>, Seq<u8>),
    /// A line with no `=`; the payload is the warning text.
    Bad(Seq<u8>),
}

/// The warning a bad line produces: `no '=' in "<trimmed line>"`.
pub open spec fn bad_warning(body: Seq<u8>) -> Seq<u8> {
    seq![0x6Eu8, 0x6F, 0x20, 0x27, 0x3D, 0x27, 0x20, 0x69, 0x6E, 0x20, 0x22] + trim(body) + seq![
        0x22u8,
    ]
}

/// The reader's line for one body, or `None` for a skipped line or a header.
pub open spec fn line_of(body: Seq<u8>) -> Option<SpecLine> {
    match classify(body) {
        Kind::Pair(k, v) => Some(SpecLine::Pair(k, v)),
        Kind::Bad => Some(SpecLine::Bad(bad_warning(body))),
        _ => None,
    }
}

/// `ini::lines`: every pair and bad line of the first `n` rows, headers
/// ignored.
pub open spec fn lines_upto(rows: Seq<SpecRow>, n: int) -> Seq<SpecLine>
    decreases n,
{
    if n <= 0 {
        seq![]
    } else {
        let prev = lines_upto(rows, n - 1);
        match line_of(rows[n - 1].body) {
            Some(l) => prev.push(l),
            None => prev,
        }
    }
}

/// `ini::lines_in_section`: the pairs and bad lines of the first `n` rows
/// that sit under a header matching `want`.
pub open spec fn section_lines_upto(rows: Seq<SpecRow>, n: int, want: Seq<u8>) -> Seq<SpecLine>
    decreases n,
{
    if n <= 0 {
        seq![]
    } else {
        let prev = section_lines_upto(rows, n - 1, want);
        if row_in_section(rows, n - 1, want) {
            match line_of(rows[n - 1].body) {
                Some(l) => prev.push(l),
                None => prev,
            }
        } else {
            prev
        }
    }
}

pub open spec fn lines_spec(text: Seq<u8>) -> Seq<SpecLine> {
    lines_upto(split_rows(text), split_rows(text).len() as int)
}

pub open spec fn section_lines_spec(text: Seq<u8>, section: Seq<u8>) -> Seq<SpecLine> {
    section_lines_upto(split_rows(text), split_rows(text).len() as int, trim(section))
}

// ---------------------------------------------------------------------------
// Executable reader
// ---------------------------------------------------------------------------

/// One row of a file.
pub struct Row {
    pub body: Vec<u8>,
    pub eol: Eol,
}

impl View for Row {
    type V = SpecRow;

    open spec fn view(&self) -> SpecRow {
        SpecRow { body: self.body@, eol: self.eol }
    }
}

pub open spec fn rows_view(rows: Seq<Row>) -> Seq<SpecRow> {
    rows.map_values(|r: Row| r@)
}

/// One line handed to a parser.
pub enum Line {
    Pair(Vec<u8>, Vec<u8>),
    Bad(Vec<u8>),
}

impl View for Line {
    type V = SpecLine;

    open spec fn view(&self) -> SpecLine {
        match self {
            Line::Pair(k, v) => SpecLine::Pair(k@, v@),
            Line::Bad(w) => SpecLine::Bad(w@),
        }
    }
}

pub open spec fn lines_view(lines: Seq<Line>) -> Seq<SpecLine> {
    lines.map_values(|l: Line| l@)
}

/// One unfolding of `split_rows` at a known first newline.
proof fn lemma_split_rows_step(s: Seq<u8>, i: int)
    requires
        s.len() > 0,
        0 <= i <= s.len(),
        first_index(s, 0x0A) == i,
    ensures
        i == s.len() ==> split_rows(s) == seq![SpecRow { body: s, eol: Eol::Missing }],
        i < s.len() ==> split_rows(s) == seq![
            if i > 0 && s[i - 1] == 0x0D {
                SpecRow { body: s.take(i - 1), eol: Eol::CrLf }
            } else {
                SpecRow { body: s.take(i), eol: Eol::Lf }
            },
        ] + split_rows(s.skip(i + 1)),
{
}

/// `text` split into rows.
pub fn split_rows_exec(text: &[u8]) -> (rows: Vec<Row>)
    ensures
        rows_view(rows@) == split_rows(text@),
{
    let mut rows: Vec<Row> = Vec::new();
    let mut i: usize = 0;
    let n = text.len();
    proof {
        assert(text@.subrange(0, n as int) =~= text@);
    }
    while i < n
        invariant
            n == text@.len(),
            0 <= i <= n,
            rows_view(rows@) + split_rows(text@.subrange(i as int, n as int)) == split_rows(
                text@,
            ),
        decreases n - i,
    {
        let j = find_byte(text, i, n, 0x0A);
        let ghost t = text@.subrange(i as int, n as int);
        proof {
            lemma_split_rows_step(t, j - i);
        }
        let old_rows = Ghost(rows_view(rows@));
        if j == n {
            let mut body: Vec<u8> = Vec::new();
            push_range(&mut body, text, i, n);
            rows.push(Row { body, eol: Eol::Missing });
            proof {
                assert(rows_view(rows@) =~= old_rows@.push(SpecRow { body: t, eol: Eol::Missing }));
                assert(text@.subrange(n as int, n as int) =~= Seq::<u8>::empty());
                assert(split_rows(text@.subrange(n as int, n as int)) =~= Seq::<SpecRow>::empty());
                assert(old_rows@ + seq![SpecRow { body: t, eol: Eol::Missing }] =~= old_rows@.push(
                    SpecRow { body: t, eol: Eol::Missing },
                ));
                assert(rows_view(rows@) + split_rows(text@.subrange(n as int, n as int))
                    =~= rows_view(rows@));
            }
            i = n;
        } else {
            let cr = j > i && text[j - 1] == 0x0D;
            let end = if cr {
                j - 1
            } else {
                j
            };
            let mut body: Vec<u8> = Vec::new();
            push_range(&mut body, text, i, end);
            let eol = if cr {
                Eol::CrLf
            } else {
                Eol::Lf
            };
            let ghost row = SpecRow { body: body@, eol };
            proof {
                let k = j - i;
                if k > 0 {
                    assert(t[k - 1] == text@[j - 1]);
                }
                assert(t.take(end - i) =~= text@.subrange(i as int, end as int));
                assert(t.skip(k + 1) =~= text@.subrange(j + 1, n as int));
            }
            rows.push(Row { body, eol });
            proof {
                assert(rows_view(rows@) =~= old_rows@.push(row));
                assert(old_rows@ + split_rows(t) =~= old_rows@.push(row) + split_rows(
                    text@.subrange(j + 1, n as int),
                ));
            }
            i = j + 1;
        }
    }
    proof {
        assert(text@.subrange(n as int, n as int) =~= Seq::<u8>::empty());
        assert(rows_view(rows@) + Seq::<SpecRow>::empty() =~= rows_view(rows@));
    }
    rows
}

/// The header a row names, as a byte range of its body, when it is one.
pub fn header_range(body: &[u8]) -> (r: Option<(usize, usize)>)
    ensures
        match r {
            Some((a, b)) => a <= b <= body@.len() && header_name(body@) == Some(
                body@.subrange(a as int, b as int),
            ),
            None => header_name(body@) is None,
        },
{
    let (s, e) = trim_at(body, 0, body.len());
    proof {
        assert(body@.subrange(0, body@.len() as int) =~= body@);
    }
    let ghost t = trim(body@);
    if s < e && body[s] == 0x5B {
        proof {
            assert(t[0] == body@[s as int]);
        }
        let inner_end = if e > s + 1 && body[e - 1] == 0x5D {
            e - 1
        } else {
            e
        };
        proof {
            let rest = t.skip(1);
            assert(rest =~= body@.subrange(s + 1, e as int));
            if e > s + 1 {
                assert(rest.last() == body@[e - 1]);
            }
            let inner = if rest.len() > 0 && rest.last() == 0x5D {
                rest.drop_last()
            } else {
                rest
            };
            assert(inner =~= body@.subrange(s + 1, inner_end as int));
        }
        let (a, b) = trim_at(body, s + 1, inner_end);
        Some((a, b))
    } else {
        proof {
            if s < e {
                assert(t[0] == body@[s as int]);
            }
        }
        None
    }
}

/// `is_skipped` on an executable body.
pub fn is_skipped_exec(body: &[u8]) -> (r: bool)
    ensures
        r == is_skipped(body@),
{
    let s = trim_start_at(body, 0, body.len());
    proof {
        assert(body@.subrange(0, body@.len() as int) =~= body@);
        if s < body.len() {
            assert(trim_start(body@)[0] == body@[s as int]);
        }
    }
    s == body.len() || body[s] == 0x3B || body[s] == 0x23 || body[s] == 0x5B
}

/// The reader's line for one body: a pair, a bad line, or nothing.
pub fn line_of_exec(body: &[u8]) -> (r: Option<Line>)
    ensures
        match r {
            Some(l) => line_of(body@) == Some(l@),
            None => line_of(body@) is None,
        },
{
    if header_range(body).is_some() {
        return None;
    }
    if is_skipped_exec(body) {
        return None;
    }
    let n = body.len();
    let e = find_byte(body, 0, n, 0x3D);
    proof {
        assert(body@.subrange(0, n as int) =~= body@);
    }
    if e < n {
        let (ka, kb) = trim_at(body, 0, e);
        let (va, vb) = trim_at(body, e + 1, n);
        let mut k: Vec<u8> = Vec::new();
        push_range(&mut k, body, ka, kb);
        let mut v: Vec<u8> = Vec::new();
        push_range(&mut v, body, va, vb);
        proof {
            assert(body@.subrange(0, e as int) =~= body@.take(e as int));
            assert(body@.subrange(e + 1, n as int) =~= body@.skip(e + 1));
            assert(k@ =~= body@.subrange(ka as int, kb as int));
            assert(v@ =~= body@.subrange(va as int, vb as int));
        }
        Some(Line::Pair(k, v))
    } else {
        let (ta, tb) = trim_at(body, 0, n);
        let mut w: Vec<u8> = Vec::new();
        w.push(0x6E);
        w.push(0x6F);
        w.push(0x20);
        w.push(0x27);
        w.push(0x3D);
        w.push(0x27);
        w.push(0x20);
        w.push(0x69);
        w.push(0x6E);
        w.push(0x20);
        w.push(0x22);
        push_range(&mut w, body, ta, tb);
        w.push(0x22);
        proof {
            assert(w@ =~= bad_warning(body@));
        }
        Some(Line::Bad(w))
    }
}

/// `ini::lines`: every pair and bad line of the file, in order.
pub fn lines(text: &[u8]) -> (r: Vec<Line>)
    ensures
        lines_view(r@) == lines_spec(text@),
{
    let rows = split_rows_exec(text);
    let ghost rv = rows_view(rows@);
    let mut out: Vec<Line> = Vec::new();
    let mut i: usize = 0;
    while i < rows.len()
        invariant
            0 <= i <= rows@.len(),
            rv == rows_view(rows@),
            rv == split_rows(text@),
            lines_view(out@) == lines_upto(rv, i as int),
        decreases rows@.len() - i,
    {
        let ghost prev = lines_view(out@);
        proof {
            assert(rv[i as int] == rows@[i as int]@);
        }
        match line_of_exec(&rows[i].body) {
            Some(l) => {
                let ghost lv = l@;
                out.push(l);
                proof {
                    assert(lines_view(out@) =~= prev.push(lv));
                }
            },
            None => {},
        }
        i = i + 1;
    }
    out
}

/// `ini::lines_in_section`: the pairs and bad lines under every header
/// matching `section`, in file order.
pub fn lines_in_section(text: &[u8], section: &[u8]) -> (r: Vec<Line>)
    ensures
        lines_view(r@) == section_lines_spec(text@, section@),
{
    let rows = split_rows_exec(text);
    let ghost rv = rows_view(rows@);
    let (wa, wb) = trim_at(section, 0, section.len());
    let mut want: Vec<u8> = Vec::new();
    push_range(&mut want, section, wa, wb);
    proof {
        assert(section@.subrange(0, section@.len() as int) =~= section@);
    }
    let mut out: Vec<Line> = Vec::new();
    let mut inside = false;
    let mut i: usize = 0;
    while i < rows.len()
        invariant
            0 <= i <= rows@.len(),
            rv == rows_view(rows@),
            rv == split_rows(text@),
            want@ == trim(section@),
            inside == row_in_section(rv, i as int, want@),
            lines_view(out@) == section_lines_upto(rv, i as int, want@),
        decreases rows@.len() - i,
    {
        let ghost prev = lines_view(out@);
        proof {
            assert(rv[i as int] == rows@[i as int]@);
        }
        let body = &rows[i].body;
        match header_range(body) {
            Some((a, b)) => {
                inside = eq_ic_at(body, a, b, &want);
            },
            None => {
                if inside {
                    match line_of_exec(body) {
                        Some(l) => {
                            let ghost lv = l@;
                            out.push(l);
                            proof {
                                assert(lines_view(out@) =~= prev.push(lv));
                            }
                        },
                        None => {},
                    }
                }
            },
        }
        i = i + 1;
    }
    out
}

// ---------------------------------------------------------------------------
// Values
// ---------------------------------------------------------------------------

/// The truthy spellings: `1`, `true`, `yes`, `on`, ASCII case-insensitive,
/// after trimming. Everything else is false.
pub open spec fn truthy(v: Seq<u8>) -> bool {
    let t = trim(v);
    eq_ic(t, seq![0x31u8]) || eq_ic(t, seq![0x74u8, 0x72, 0x75, 0x65]) || eq_ic(
        t,
        seq![0x79u8, 0x65, 0x73],
    ) || eq_ic(t, seq![0x6Fu8, 0x6E])
}

/// `ini::parse_bool`.
pub fn parse_bool(v: &[u8]) -> (r: bool)
    ensures
        r == truthy(v@),
{
    let (a, b) = trim_at(v, 0, v.len());
    proof {
        assert(v@.subrange(0, v@.len() as int) =~= v@);
    }
    let one: [u8; 1] = [0x31];
    let tru: [u8; 4] = [0x74, 0x72, 0x75, 0x65];
    let yes: [u8; 3] = [0x79, 0x65, 0x73];
    let on: [u8; 2] = [0x6F, 0x6E];
    proof {
        assert(one@ =~= seq![0x31u8]);
        assert(tru@ =~= seq![0x74u8, 0x72, 0x75, 0x65]);
        assert(yes@ =~= seq![0x79u8, 0x65, 0x73]);
        assert(on@ =~= seq![0x6Fu8, 0x6E]);
    }
    eq_ic_at(v, a, b, one.as_slice()) || eq_ic_at(v, a, b, tru.as_slice()) || eq_ic_at(
        v,
        a,
        b,
        yes.as_slice(),
    ) || eq_ic_at(v, a, b, on.as_slice())
}

// ---------------------------------------------------------------------------
// Well-formed text in, well-formed pieces out
// ---------------------------------------------------------------------------

/// Every row body of well-formed text is well-formed.
pub proof fn lemma_rows_valid(s: Seq<u8>)
    requires
        valid_utf8(s),
    ensures
        forall|i: int| 0 <= i < split_rows(s).len() ==> valid_utf8(#[trigger] split_rows(s)[i].body),
    decreases s.len(),
{
    if s.len() > 0 {
        let i = first_index(s, 0x0A);
        lemma_first_index(s, 0x0A);
        if i < s.len() {
            lemma_split_at_ascii(s, i);
            if i > 0 && s[i - 1] == 0x0D {
                lemma_split_at_ascii(s, i - 1);
            }
            lemma_rows_valid(s.skip(i + 1));
            let rest = split_rows(s.skip(i + 1));
            assert forall|k: int| 0 <= k < split_rows(s).len() implies valid_utf8(#[trigger] split_rows(s)[k].body) by {
                if k > 0 {
                    assert(split_rows(s)[k] == rest[k - 1]);
                }
            }
        }
    }
}

/// The warning text of a bad line is well-formed when the line is.
pub proof fn lemma_bad_warning_valid(body: Seq<u8>)
    requires
        valid_utf8(body),
    ensures
        valid_utf8(bad_warning(body)),
{
    let pre = seq![0x6Eu8, 0x6F, 0x20, 0x27, 0x3D, 0x27, 0x20, 0x69, 0x6E, 0x20, 0x22];
    let post = seq![0x22u8];
    lemma_ascii_valid(pre);
    lemma_ascii_valid(post);
    lemma_trim_valid(body);
    vstd::utf8::valid_utf8_concat(pre, trim(body));
    vstd::utf8::valid_utf8_concat(pre + trim(body), post);
}

/// Both halves of a pair, and the name of a header, are well-formed when the
/// body is.
pub proof fn lemma_classify_valid(body: Seq<u8>)
    requires
        valid_utf8(body),
    ensures
        classify(body) matches Kind::Pair(k, v) ==> valid_utf8(k) && valid_utf8(v),
        classify(body) matches Kind::Header(h) ==> valid_utf8(h),
{
    lemma_trim_valid(body);
    let t = trim(body);
    if t.len() > 0 && t[0] == 0x5B {
        lemma_split_at_ascii(t, 0);
        let rest = t.skip(1);
        if rest.len() > 0 && rest.last() == 0x5D {
            lemma_split_at_ascii(rest, rest.len() - 1);
            assert(rest.take(rest.len() - 1) =~= rest.drop_last());
            lemma_trim_valid(rest.drop_last());
        } else {
            lemma_trim_valid(rest);
        }
    }
    let e = first_index(body, 0x3D);
    lemma_first_index(body, 0x3D);
    if e < body.len() {
        lemma_split_at_ascii(body, e);
        lemma_trim_valid(body.take(e));
        lemma_trim_valid(body.skip(e + 1));
    }
}

pub open spec fn line_valid(l: SpecLine) -> bool {
    match l {
        SpecLine::Pair(k, v) => valid_utf8(k) && valid_utf8(v),
        SpecLine::Bad(w) => valid_utf8(w),
    }
}

proof fn lemma_line_of_valid(body: Seq<u8>)
    requires
        valid_utf8(body),
    ensures
        line_of(body) matches Some(l) ==> line_valid(l),
{
    lemma_classify_valid(body);
    lemma_bad_warning_valid(body);
}

/// Every line the reader hands a parser out of well-formed text is
/// well-formed.
pub proof fn lemma_lines_valid(text: Seq<u8>)
    requires
        valid_utf8(text),
    ensures
        forall|i: int| 0 <= i < lines_spec(text).len() ==> line_valid(#[trigger] lines_spec(text)[i]),
{
    let rows = split_rows(text);
    lemma_rows_valid(text);
    lemma_lines_upto_valid(rows, rows.len() as int);
}

proof fn lemma_lines_upto_valid(rows: Seq<SpecRow>, n: int)
    requires
        n <= rows.len(),
        forall|i: int| 0 <= i < rows.len() ==> valid_utf8(#[trigger] rows[i].body),
    ensures
        forall|i: int| 0 <= i < lines_upto(rows, n).len() ==> line_valid(#[trigger] lines_upto(rows, n)[i]),
    decreases n,
{
    if n > 0 {
        lemma_lines_upto_valid(rows, n - 1);
        lemma_line_of_valid(rows[n - 1].body);
        let prev = lines_upto(rows, n - 1);
        assert forall|i: int| 0 <= i < lines_upto(rows, n).len() implies line_valid(#[trigger] lines_upto(rows, n)[i]) by {
            if i < prev.len() {
                assert(lines_upto(rows, n)[i] == prev[i]);
            }
        }
    }
}

/// The same for the lines of one section.
pub proof fn lemma_section_lines_valid(text: Seq<u8>, section: Seq<u8>)
    requires
        valid_utf8(text),
    ensures
        forall|i: int| 0 <= i < section_lines_spec(text, section).len() ==> line_valid(
            #[trigger] section_lines_spec(text, section)[i],
        ),
{
    let rows = split_rows(text);
    lemma_rows_valid(text);
    lemma_section_lines_upto_valid(rows, rows.len() as int, trim(section));
}

proof fn lemma_section_lines_upto_valid(rows: Seq<SpecRow>, n: int, want: Seq<u8>)
    requires
        n <= rows.len(),
        forall|i: int| 0 <= i < rows.len() ==> valid_utf8(#[trigger] rows[i].body),
    ensures
        forall|i: int| 0 <= i < section_lines_upto(rows, n, want).len() ==> line_valid(
            #[trigger] section_lines_upto(rows, n, want)[i],
        ),
    decreases n,
{
    if n > 0 {
        lemma_section_lines_upto_valid(rows, n - 1, want);
        lemma_line_of_valid(rows[n - 1].body);
        let prev = section_lines_upto(rows, n - 1, want);
        assert forall|i: int| 0 <= i < section_lines_upto(rows, n, want).len() implies line_valid(
            #[trigger] section_lines_upto(rows, n, want)[i]) by {
            if i < prev.len() {
                assert(section_lines_upto(rows, n, want)[i] == prev[i]);
            }
        }
    }
}

} // verus!
