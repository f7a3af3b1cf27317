//! The catch-count hook's decision: how many of a caught creature the game
//! grants, and the once-per-class report of a class byte no recorded catch
//! has shown. The 256 possible class bytes are one bit each in four words.

use vstd::prelude::*;

use crate::looter::memory::{ptr_at, u8_at, Memory, SpecRegion};

verus! {

/// Whether bit `b` of `w` is set.
pub open spec fn has_bit(w: u64, b: u64) -> bool {
    (w >> b) & 1 == 1
}

proof fn lemma_set_bit(w: u64, b: u64, c: u64)
    requires
        b < 64,
        c < 64,
    ensures
        has_bit(w | (1u64 << b), b),
        b != c ==> (has_bit(w | (1u64 << b), c) == has_bit(w, c)),
        ((w & (1u64 << b)) == 0) == !has_bit(w, b),
{
    assert(has_bit(w | (1u64 << b), b)) by (bit_vector)
        requires
            b < 64,
    ;
    assert(b != c ==> (has_bit(w | (1u64 << b), c) == has_bit(w, c))) by (bit_vector)
        requires
            b < 64,
            c < 64,
    ;
    assert(((w & (1u64 << b)) == 0) == !has_bit(w, b)) by (bit_vector)
        requires
            b < 64,
    ;
}

/// Which word a class byte's bit lives in.
pub open spec fn word_of(class: u8) -> int {
    class as int / 64
}

/// Which bit of that word.
pub open spec fn bit_of(class: u8) -> u64 {
    (class as int % 64) as u64
}

/// The class bytes already reported.
pub struct UnknownClasses {
    words: Vec<u64>,
}

impl UnknownClasses {
    pub closed spec fn wf(&self) -> bool {
        self.words@.len() == 4
    }

    /// The classes reported so far.
    pub closed spec fn logged(&self) -> Set<u8> {
        Set::new(|c: u8| has_bit(self.words@[word_of(c)], bit_of(c)))
    }

    /// Nothing reported yet.
    pub fn new() -> (r: UnknownClasses)
        ensures
            r.wf(),
            r.logged() == Set::<u8>::empty(),
    {
        let r = UnknownClasses { words: vec![0u64, 0u64, 0u64, 0u64] };
        assert forall|c: u8| !r.logged().contains(c) by {
            let b = bit_of(c);
            assert(r.words@[word_of(c)] == 0);
            assert(!has_bit(0u64, b)) by (bit_vector);
        }
        assert(r.logged() =~= Set::<u8>::empty());
        r
    }

    /// The word a class byte's bit lives in; every byte has one.
    pub fn word_index(class: u8) -> (r: usize)
        ensures
            r == word_of(class),
            r < 4,
    {
        (class / 64) as usize
    }

    /// Record `class` as reported, and say whether this was its first time.
    pub fn first_unknown(&mut self, class: u8) -> (r: bool)
        requires
            old(self).wf(),
        ensures
            final(self).wf(),
            r == !old(self).logged().contains(class),
            final(self).logged() == old(self).logged().insert(class),
    {
        let i = Self::word_index(class);
        let b: u64 = (class % 64) as u64;
        let bit: u64 = 1u64 << b;
        let w = self.words[i];
        let first = w & bit == 0;
        self.words.set(i, w | bit);
        proof {
            lemma_set_bit(w, b, b);
            assert forall|c: u8| #![auto] final(self).logged().contains(c) == old(self).logged().insert(class).contains(c) by {
                if word_of(c) == i as int {
                    lemma_set_bit(w, b, bit_of(c));
                    if c != class {
                        assert(bit_of(c) != b);
                    }
                }
            }
            assert(final(self).logged() =~= old(self).logged().insert(class));
        }
        first
    }
}

} // verus!

verus! {

// ---------------------------------------------------------------------------
// The catch count
// ---------------------------------------------------------------------------

/// The actor type byte of a creature that can be caught.
pub const CATCHABLE_TYPE: u8 = 6;

/// What a caught creature is, as the catch tables tell it.
#[derive(Debug, Clone, Copy, PartialEq, Eq, Structural)]
pub enum CatchKind {
    Bug,
    Fish,
}

/// The live catch settings: the master switch, the dry run, and the two
/// catch multipliers.
#[derive(Debug, Clone, Copy, PartialEq, Eq, Structural)]
pub struct CatchSettings {
    pub enabled: bool,
    pub dry_run: bool,
    pub bug: u32,
    pub fish: u32,
}

/// What the catch hook has to say about one catch: nothing, a class never
/// seen before (once per class), or the multiplier it would apply (dry run)
/// or applied.
#[derive(Debug, Clone, Copy, PartialEq, Eq, Structural)]
pub enum CatchNote {
    Quiet,
    UnknownClass(u8),
    DryRun(CatchKind, u8, u32),
    Multiplied(CatchKind, u8, u32),
}

/// `*(actor+0x88)`, then the type byte at `+1`.
pub open spec fn catch_type_spec(m: Seq<SpecRegion>, actor: int) -> Option<u8> {
    match ptr_at(m, actor + 0x88) {
        Some(obj) => u8_at(m, obj + 1),
        None => None,
    }
}

/// `*(*(actor+0x68)+0x20) + 0x5A`, the interaction class byte.
pub open spec fn class_byte_spec(m: Seq<SpecRegion>, actor: int) -> Option<u8> {
    match ptr_at(m, actor + 0x68) {
        Some(sub) => match ptr_at(m, sub + 0x20) {
            Some(status) => u8_at(m, status + 0x5A),
            None => None,
        },
        None => None,
    }
}

/// The kind of the first entry of `classes` for `class`.
pub open spec fn kind_of(classes: Seq<(u8, CatchKind)>, class: u8) -> Option<CatchKind>
    decreases classes.len(),
{
    if classes.len() == 0 {
        None
    } else if classes[0].0 == class {
        Some(classes[0].1)
    } else {
        kind_of(classes.skip(1), class)
    }
}

pub open spec fn catch_mult(live: CatchSettings, k: CatchKind) -> u32 {
    let m = match k {
        CatchKind::Bug => live.bug,
        CatchKind::Fish => live.fish,
    };
    if m < crate::gatherer::config::MULT_MIN {
        crate::gatherer::config::MULT_MIN
    } else if m > crate::gatherer::config::MULT_MAX {
        crate::gatherer::config::MULT_MAX
    } else {
        m
    }
}

/// The count the game should grant for a caught creature, 1 for vanilla,
/// and what to say about it, given whether its class was reported before.
pub open spec fn count_spec(
    m: Seq<SpecRegion>,
    actor: int,
    classes: Seq<(u8, CatchKind)>,
    live: CatchSettings,
    logged: Set<u8>,
) -> (u32, CatchNote) {
    if catch_type_spec(m, actor) != Some(CATCHABLE_TYPE) {
        (1, CatchNote::Quiet)
    } else {
        match class_byte_spec(m, actor) {
            None => (1, CatchNote::Quiet),
            Some(class) => match kind_of(classes, class) {
                None => (1, if logged.contains(class) { CatchNote::Quiet } else { CatchNote::UnknownClass(class) }),
                Some(k) => if !live.enabled || catch_mult(live, k) <= 1 {
                    (1, CatchNote::Quiet)
                } else if live.dry_run {
                    (1, CatchNote::DryRun(k, class, catch_mult(live, k)))
                } else {
                    (catch_mult(live, k), CatchNote::Multiplied(k, class, catch_mult(live, k)))
                },
            },
        }
    }
}

fn kind_of_exec(classes: &[(u8, CatchKind)], class: u8) -> (r: Option<CatchKind>)
    ensures
        r == kind_of(classes@, class),
{
    let mut i: usize = 0;
    assert(classes@.skip(0) =~= classes@);
    while i < classes.len()
        invariant
            0 <= i <= classes@.len(),
            kind_of(classes@, class) == kind_of(classes@.skip(i as int), class),
        decreases classes@.len() - i,
    {
        proof {
            assert(classes@.skip(i as int)[0] == classes@[i as int]);
            assert(classes@.skip(i as int).skip(1) =~= classes@.skip(i + 1));
        }
        if classes[i].0 == class {
            return Some(classes[i].1);
        }
        i = i + 1;
    }
    None
}

/// The catch hook's decision: vanilla (1) unless the actor is a catchable
/// creature of a known class, the subsystem is on and the clamped multiplier
/// is above 1; a dry run grants 1 and says what it would have done. A class
/// no table knows is reported the first time it is seen.
pub fn count_for(
    mem: &Memory,
    actor: usize,
    classes: &[(u8, CatchKind)],
    live: &CatchSettings,
    unknown: &mut UnknownClasses,
) -> (r: (u32, CatchNote))
    requires
        old(unknown).wf(),
    ensures
        final(unknown).wf(),
        r == count_spec(mem@, actor as int, classes@, *live, old(unknown).logged()),
        final(unknown).logged() == (match (catch_type_spec(mem@, actor as int), class_byte_spec(mem@, actor as int)) {
            (Some(t), Some(c)) => if t == CATCHABLE_TYPE && kind_of(classes@, c) is None {
                old(unknown).logged().insert(c)
            } else {
                old(unknown).logged()
            },
            _ => old(unknown).logged(),
        }),
{
    let ty = match mem.ptr_at(actor, 0x88) {
        Some(obj) => mem.u8_at(obj, 1),
        None => None,
    };
    let class = match mem.ptr_at(actor, 0x68) {
        Some(sub) => match mem.ptr_at(sub, 0x20) {
            Some(status) => mem.u8_at(status, 0x5A),
            None => None,
        },
        None => None,
    };
    if ty != Some(CATCHABLE_TYPE) {
        return (1, CatchNote::Quiet);
    }
    let class = match class {
        Some(c) => c,
        None => return (1, CatchNote::Quiet),
    };
    let kind = match kind_of_exec(classes, class) {
        Some(k) => k,
        None => {
            let first = unknown.first_unknown(class);
            return (1, if first { CatchNote::UnknownClass(class) } else { CatchNote::Quiet });
        },
    };
    if !live.enabled {
        return (1, CatchNote::Quiet);
    }
    let raw = match kind {
        CatchKind::Bug => live.bug,
        CatchKind::Fish => live.fish,
    };
    let mult = if raw < crate::gatherer::config::MULT_MIN {
        crate::gatherer::config::MULT_MIN
    } else if raw > crate::gatherer::config::MULT_MAX {
        crate::gatherer::config::MULT_MAX
    } else {
        raw
    };
    if mult <= 1 {
        return (1, CatchNote::Quiet);
    }
    if live.dry_run {
        return (1, CatchNote::DryRun(kind, class, mult));
    }
    (mult, CatchNote::Multiplied(kind, class, mult))
}

} // verus!
