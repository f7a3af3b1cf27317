//! Pieces of the schema-driven menu model: where a stored value sits in a
//! list of options, integer bounds narrowed for the widgets, and what the
//! footer says about the shared file.

use vstd::prelude::*;
use vstd::string::StringSliceAdditionalSpecFns;
use vstd::utf8::encode_utf8;

use crate::strings::lit;
use crate::text::{eq_ic, eq_ic_at, trim, trim_at};

verus! {

/// An `i64` from the schema as the `i32` the integer widgets take,
/// saturating rather than wrapping.
pub fn i32_of(v: i64) -> (r: i32)
    ensures
        r == (if v < i32::MIN { i32::MIN as int } else if v > i32::MAX { i32::MAX as int } else { v as int }),
{
    if v < i32::MIN as i64 {
        i32::MIN
    } else if v > i32::MAX as i64 {
        i32::MAX
    } else {
        v as i32
    }
}

/// Index of the first option matching `t` ignoring ASCII case, or the
/// number of options.
pub open spec fn option_pos(opts: Seq<Seq<u8>>, t: Seq<u8>) -> int
    decreases opts.len(),
{
    if opts.len() == 0 {
        0
    } else if eq_ic(opts[0], t) {
        0
    } else {
        1 + option_pos(opts.skip(1), t)
    }
}

proof fn lemma_option_pos_unique(opts: Seq<Seq<u8>>, t: Seq<u8>, k: int)
    requires
        0 <= k <= opts.len(),
        forall|j: int| 0 <= j < k ==> !eq_ic(#[trigger] opts[j], t),
        k < opts.len() ==> eq_ic(opts[k], t),
    ensures
        option_pos(opts, t) == k,
    decreases opts.len(),
{
    if opts.len() > 0 && k > 0 {
        assert forall|j: int| 0 <= j < k - 1 implies !eq_ic(#[trigger] opts.skip(1)[j], t) by {
            assert(opts.skip(1)[j] == opts[j + 1]);
        }
        lemma_option_pos_unique(opts.skip(1), t, k - 1);
    }
}

pub open spec fn options_view(options: Seq<String>) -> Seq<Seq<u8>> {
    options.map_values(|o: String| encode_utf8(o@))
}

/// Where the stored text sits in a list of options, matched after trimming
/// and ignoring ASCII case; 0 for anything not in the list, so a combo always
/// has something selected.
pub fn option_index(options: &[String], text: &str) -> (r: usize)
    ensures
        ({
            let p = option_pos(options_view(options@), trim(lit(text)));
            r == (if p < options@.len() { p } else { 0 })
        }),
{
    let b = text.as_bytes();
    let (lo, hi) = trim_at(b, 0, b.len());
    proof {
        assert(b@.subrange(0, b@.len() as int) =~= b@);
    }
    let ghost t = trim(lit(text));
    let ghost opts = options_view(options@);
    let mut i: usize = 0;
    while i < options.len()
        invariant
            b@ == lit(text),
            lo <= hi <= b@.len(),
            b@.subrange(lo as int, hi as int) == t,
            opts == options_view(options@),
            t == trim(lit(text)),
            0 <= i <= options@.len(),
            forall|j: int| 0 <= j < i ==> !eq_ic(#[trigger] opts[j], t),
        decreases options.len() - i,
    {
        let o = options[i].as_str().as_bytes();
        if eq_ic_at(b, lo, hi, o) {
            proof {
                crate::text::lemma_eq_ic_symm(b@.subrange(lo as int, hi as int), o@);
                assert(opts[i as int] == o@);
                lemma_option_pos_unique(opts, t, i as int);
            }
            return i;
        }
        proof {
            crate::text::lemma_eq_ic_symm(b@.subrange(lo as int, hi as int), o@);
            assert(opts[i as int] == o@);
        }
        i = i + 1;
    }
    proof {
        lemma_option_pos_unique(opts, t, options@.len() as int);
    }
    0
}

/// What the footer says about the one ini every section shares.
#[derive(Debug, Clone, PartialEq, Eq)]
pub enum FileState {
    /// A read or a write failed; the string is the store's status line.
    Failed(String),
    /// An edit is waiting for the debounce to run out.
    Saving,
    /// Everything a widget changed is on disk.
    Saved,
}

/// How many characters of a failure the footer shows before the rest goes to
/// the tooltip.
pub const STATUS_SHOWN: usize = 44;

/// `t` cut to at most `max` characters, with an ellipsis when anything was
/// cut.
pub open spec fn ellipsis_spec(t: Seq<char>, max: int) -> Seq<char> {
    if t.len() > max {
        t.take(max) + seq!['\u{2026}']
    } else {
        t
    }
}

/// The footer's words for a state, given the shared file's name.
pub open spec fn label_spec(s: FileState, file_name: Seq<char>) -> Seq<char> {
    match s {
        FileState::Failed(status) => ellipsis_spec(status@, STATUS_SHOWN as int),
        FileState::Saving => file_name + seq![' ', '\u{b7}', ' ', 's', 'a', 'v', 'i', 'n', 'g', '\u{2026}'],
        FileState::Saved => file_name + seq![' ', '\u{b7}', ' ', 's', 'a', 'v', 'e', 'd'],
    }
}

/// `text` cut to at most `max` characters, counted in characters, with an
/// ellipsis when anything was cut.
fn ellipsis(text: &str, max: usize) -> (r: String)
    ensures
        r@ == ellipsis_spec(text@, max as int),
{
    let n = text.unicode_len();
    if n > max {
        let mut s = String::from_str(text.substring_char(0, max));
        let dots = "\u{2026}";
        proof {
            reveal_strlit("\u{2026}");
        }
        s.append(dots);
        proof {
            assert(text@.subrange(0, max as int) =~= text@.take(max as int));
        }
        s
    } else {
        String::from_str(text)
    }
}

impl FileState {
    /// The footer's own words: a failure in the store's wording, cut to
    /// `STATUS_SHOWN` characters with an ellipsis; otherwise the file name
    /// and whether an edit is still being saved.
    pub fn label(&self, file_name: &str) -> (r: String)
        ensures
            r@ == label_spec(*self, file_name@),
    {
        match self {
            FileState::Failed(status) => ellipsis(status.as_str(), STATUS_SHOWN),
            FileState::Saving => {
                let mut s = String::from_str(file_name);
                let tail = " \u{b7} saving\u{2026}";
                proof {
                    reveal_strlit(" \u{b7} saving\u{2026}");
                }
                s.append(tail);
                proof {
                    assert(s@ =~= label_spec(*self, file_name@));
                }
                s
            },
            FileState::Saved => {
                let mut s = String::from_str(file_name);
                let tail = " \u{b7} saved";
                proof {
                    reveal_strlit(" \u{b7} saved");
                }
                s.append(tail);
                proof {
                    assert(s@ =~= label_spec(*self, file_name@));
                }
                s
            },
        }
    }

    /// The full status text, for the tooltip, when there is more to say
    /// than the label shows.
    pub fn tooltip(&self) -> (r: Option<&str>)
        ensures
            match self {
                FileState::Failed(s) => r matches Some(t) && t@ == s@,
                _ => r is None,
            },
    {
        match self {
            FileState::Failed(status) => Some(status.as_str()),
            _ => None,
        }
    }
}

} // verus!
