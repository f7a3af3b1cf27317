//! The `Hunting` multiplier's bookkeeping: the published multiplier, clamped
//! to the key's range, and the ring of loot components already multiplied, so
//! that stacks a full bag handed back are not multiplied a second time.

use vstd::prelude::*;

verus! {

/// `Hunting`'s accepted range.
pub const HUNTING_MIN: u32 = 1;
pub const HUNTING_MAX: u32 = 100;
pub const HUNTING_RANGE: (u32, u32) = (HUNTING_MIN, HUNTING_MAX);

/// How many components the "already multiplied" ring remembers.
pub const SEEN: usize = 64;

/// The multiplier and the ring, as the grant callback sees them.
pub struct Hunting {
    mult: u32,
    seen: Vec<usize>,
    next: usize,
}

/// `u32::clamp` into the key's range.
pub open spec fn clamp_mult(n: u32) -> u32 {
    if n < HUNTING_MIN {
        HUNTING_MIN
    } else if n > HUNTING_MAX {
        HUNTING_MAX
    } else {
        n
    }
}

impl Hunting {
    /// The ring's slots, oldest overwritten first.
    pub closed spec fn ring(&self) -> Seq<usize> {
        self.seen@
    }

    /// The slot the next remembered component goes into.
    pub closed spec fn cursor(&self) -> int {
        self.next as int
    }

    pub closed spec fn mult_spec(&self) -> u32 {
        self.mult
    }

    pub closed spec fn wf(&self) -> bool {
        self.seen@.len() == SEEN && self.next < SEEN
    }

    /// Whether `comp` is in the ring.
    pub open spec fn holds(&self, comp: usize) -> bool {
        comp != 0 && exists|i: int| 0 <= i < SEEN && self.ring()[i] == comp
    }

    /// A fresh state: multiplier 1, an empty ring.
    pub fn new() -> (r: Hunting)
        ensures
            r.wf(),
            r.mult_spec() == 1,
            r.cursor() == 0,
            forall|i: int| 0 <= i < SEEN ==> #[trigger] r.ring()[i] == 0,
    {
        let mut seen: Vec<usize> = Vec::new();
        while seen.len() < SEEN
            invariant
                seen.len() <= SEEN,
                forall|i: int| 0 <= i < seen.len() ==> seen@[i] == 0,
            decreases SEEN - seen.len(),
        {
            seen.push(0);
        }
        Hunting { mult: 1, seen, next: 0 }
    }

    /// Publish the `Hunting` value, clamped into the key's range: the last
    /// gate in front of a write into game memory.
    pub fn set_multiplier(&mut self, n: u32)
        requires
            old(self).wf(),
        ensures
            final(self).wf(),
            final(self).mult_spec() == clamp_mult(n),
            final(self).ring() == old(self).ring(),
            final(self).cursor() == old(self).cursor(),
    {
        self.mult = if n < HUNTING_MIN {
            HUNTING_MIN
        } else if n > HUNTING_MAX {
            HUNTING_MAX
        } else {
            n
        };
    }

    /// What [`Hunting::set_multiplier`] last published.
    pub fn multiplier(&self) -> (r: u32)
        ensures
            r == self.mult_spec(),
    {
        self.mult
    }

    /// Whether this component has already had its counts raised.
    pub fn already_multiplied(&self, comp: usize) -> (r: bool)
        requires
            self.wf(),
        ensures
            r == self.holds(comp),
    {
        if comp == 0 {
            return false;
        }
        let mut i: usize = 0;
        while i < SEEN
            invariant
                self.wf(),
                comp != 0,
                0 <= i <= SEEN,
                forall|j: int| 0 <= j < i ==> self.ring()[j] != comp,
            decreases SEEN - i,
        {
            if self.seen[i] == comp {
                assert(self.ring()[i as int] == comp);
                return true;
            }
            i = i + 1;
        }
        false
    }

    /// Remember a component whose counts were actually raised; a null
    /// component never claims a slot.
    pub fn remember(&mut self, comp: usize)
        requires
            old(self).wf(),
        ensures
            final(self).wf(),
            final(self).mult_spec() == old(self).mult_spec(),
            comp == 0 ==> final(self).ring() == old(self).ring() && final(self).cursor() == old(self).cursor(),
            comp != 0 ==> final(self).ring() == old(self).ring().update(old(self).cursor(), comp),
            comp != 0 ==> final(self).cursor() == (old(self).cursor() + 1) % (SEEN as int),
    {
        if comp == 0 {
            return;
        }
        let i = self.next;
        self.seen.set(i, comp);
        self.next = (i + 1) % SEEN;
    }
}

/// Read after write: a component just remembered is refused.
pub proof fn lemma_remembered_is_held(before: Hunting, after: Hunting, comp: usize)
    requires
        before.wf(),
        comp != 0,
        after.ring() == before.ring().update(before.cursor(), comp),
    ensures
        after.holds(comp),
{
    assert(after.ring()[before.cursor()] == comp);
}

/// The ring after remembering `comps` in order, starting at slot `cursor`.
pub open spec fn ring_after(ring: Seq<usize>, cursor: int, comps: Seq<usize>) -> Seq<usize>
    decreases comps.len(),
{
    if comps.len() == 0 {
        ring
    } else {
        let r = ring_after(ring, cursor, comps.drop_last());
        let at = (cursor + comps.len() - 1) % (SEEN as int);
        if comps.last() == 0 {
            r
        } else {
            r.update(at, comps.last())
        }
    }
}

proof fn lemma_ring_after_slots(ring: Seq<usize>, cursor: int, comps: Seq<usize>)
    requires
        ring.len() == SEEN,
        0 <= cursor < SEEN,
        comps.len() <= SEEN,
        forall|j: int| 0 <= j < comps.len() ==> #[trigger] comps[j] != 0,
    ensures
        ring_after(ring, cursor, comps).len() == SEEN,
        forall|j: int| 0 <= j < comps.len() ==>
            ring_after(ring, cursor, comps)[#[trigger] ((cursor + j) % (SEEN as int))] == comps[j],
        forall|s: int| 0 <= s < SEEN && (forall|j: int| 0 <= j < comps.len() ==> s != #[trigger] ((cursor + j) % (SEEN as int)))
            ==> ring_after(ring, cursor, comps)[s] == ring[s],
    decreases comps.len(),
{
    if comps.len() > 0 {
        let init = comps.drop_last();
        lemma_ring_after_slots(ring, cursor, init);
        let n = comps.len() - 1;
        let at = (cursor + n) % (SEEN as int);
        assert forall|j: int| 0 <= j < comps.len() implies
            ring_after(ring, cursor, comps)[#[trigger] ((cursor + j) % (SEEN as int))] == comps[j] by {
            if j < n {
                assert(init[j] == comps[j]);
                let a = (cursor + j) % (SEEN as int);
                assert(a != at) by {
                    assert(0 <= j < n < SEEN);
                }
            }
        }
        assert forall|s: int| 0 <= s < SEEN && (forall|j: int| 0 <= j < comps.len() ==> s != #[trigger] ((cursor + j) % (SEEN as int)))
            implies ring_after(ring, cursor, comps)[s] == ring[s] by {
            assert(s != (cursor + n) % (SEEN as int));
            assert forall|j: int| 0 <= j < init.len() implies s != #[trigger] ((cursor + j) % (SEEN as int)) by {
                assert(0 <= j < comps.len());
            }
        }
    }
}

/// The ring's bound, which is deliberate: after a full ring's worth of other
/// multiplied components, a remembered one has been evicted.
pub proof fn lemma_full_ring_evicts(ring: Seq<usize>, cursor: int, comps: Seq<usize>, comp: usize)
    requires
        ring.len() == SEEN,
        0 <= cursor < SEEN,
        comps.len() == SEEN,
        forall|j: int| 0 <= j < comps.len() ==> #[trigger] comps[j] != 0 && comps[j] != comp,
    ensures
        forall|s: int| 0 <= s < SEEN ==> #[trigger] ring_after(ring, cursor, comps)[s] != comp,
{
    lemma_ring_after_slots(ring, cursor, comps);
    assert forall|s: int| 0 <= s < SEEN implies #[trigger] ring_after(ring, cursor, comps)[s] != comp by {
        let j = if s >= cursor { s - cursor } else { s + SEEN - cursor };
        assert(0 <= j < SEEN);
        assert((cursor + j) % (SEEN as int) == s);
        assert(ring_after(ring, cursor, comps)[(cursor + j) % (SEEN as int)] == comps[j]);
    }
}

} // verus!
