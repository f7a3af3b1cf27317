//! The survey listing: which nearby actors get a line, in what order, what
//! each line shows, how many were cut, and the census of kinds at its foot.
//!
//! The caller measures the distances: it hands in the actors within range,
//! nearest first, each with its kind and whether it is close enough for an
//! inert gimmick's detail line.

use vstd::prelude::*;

use crate::looter::actors::Kind;

verus! {

/// Inert gimmicks closer than this many metres get a detail line.
pub const INERT_DETAIL_METRES: u32 = 10;

/// One actor within range, nearest first.
#[derive(Debug, Clone, Copy, PartialEq, Eq, Structural)]
pub struct Surveyed {
    pub kind: Kind,
    /// Within `INERT_DETAIL_METRES` of the player.
    pub close: bool,
}

/// What an actor's line shows: a node's record and status, an inert
/// gimmick's record and components, nothing (a far inert gimmick outside
/// debug, which still uses up a line), or the bytes the catch rule keys on.
#[derive(Debug, Clone, Copy, PartialEq, Eq, Structural)]
pub enum LineStyle {
    Node,
    InertDetail,
    Hidden,
    Diagnostic,
}

pub open spec fn style_of(s: Surveyed, debug: bool) -> LineStyle {
    match s.kind {
        Kind::Gather | Kind::Item | Kind::Interactable | Kind::Unarmed => LineStyle::Node,
        Kind::Inert => if s.close {
            LineStyle::InertDetail
        } else if !debug {
            LineStyle::Hidden
        } else {
            LineStyle::Diagnostic
        },
        _ => LineStyle::Diagnostic,
    }
}

/// Gather nodes first, then ground items, then everything else.
pub open spec fn rank(k: Kind) -> int {
    match k {
        Kind::Gather | Kind::Unarmed => 0,
        Kind::Item => 1,
        _ => 2,
    }
}

/// The indices below `k` of the actors of rank `r`, nearest first.
pub open spec fn of_rank(a: Seq<Surveyed>, r: int, k: int) -> Seq<usize>
    decreases k,
{
    if k <= 0 {
        seq![]
    } else if rank(a[k - 1].kind) == r {
        of_rank(a, r, k - 1).push((k - 1) as usize)
    } else {
        of_rank(a, r, k - 1)
    }
}

/// The listing order: kind first, nearest first within a kind.
pub open spec fn listing(a: Seq<Surveyed>) -> Seq<usize> {
    of_rank(a, 0, a.len() as int) + of_rank(a, 1, a.len() as int) + of_rank(a, 2, a.len() as int)
}

/// How many of the first `k` actors are of kind `kind`.
pub open spec fn count_of(a: Seq<Surveyed>, kind: Kind, k: int) -> nat
    decreases k,
{
    if k <= 0 {
        0
    } else {
        count_of(a, kind, k - 1) + if a[k - 1].kind == kind { 1nat } else { 0 }
    }
}

/// The kinds in the census's order, which is their names' order.
pub open spec fn kind_order() -> Seq<Kind> {
    seq![
        Kind::Carcass, Kind::CarcassEmpty, Kind::Catchable, Kind::Character, Kind::Equipment, Kind::Gather,
        Kind::Inert, Kind::Interactable, Kind::Item, Kind::Other, Kind::Player, Kind::Unarmed,
    ]
}

/// The census over the first `j` kinds of `kind_order`: each kind present,
/// with how many.
pub open spec fn census_upto(a: Seq<Surveyed>, j: int) -> Seq<(Kind, usize)>
    decreases j,
{
    if j <= 0 {
        seq![]
    } else {
        let k = kind_order()[j - 1];
        let n = count_of(a, k, a.len() as int);
        if n > 0 {
            census_upto(a, j - 1).push((k, n as usize))
        } else {
            census_upto(a, j - 1)
        }
    }
}

/// The survey's listing: the lines (which actor, what it shows), how many
/// actors the line budget cut, and the census of kinds, which is never cut.
pub struct SurveyLines {
    pub lines: Vec<(usize, LineStyle)>,
    pub cut: usize,
    pub counts: Vec<(Kind, usize)>,
}

pub open spec fn lines_spec(a: Seq<Surveyed>, budget: usize, debug: bool) -> Seq<(usize, LineStyle)> {
    let order = listing(a);
    let n = if order.len() < budget { order.len() as int } else { budget as int };
    Seq::new(n as nat, |i: int| (order[i], style_of(a[order[i] as int], debug)))
}

fn collect_rank(a: &[Surveyed], r: u8, out: &mut Vec<usize>)
    requires
        r <= 2,
    ensures
        final(out)@ == old(out)@ + of_rank(a@, r as int, a@.len() as int),
{
    let ghost start = out@;
    let mut k: usize = 0;
    while k < a.len()
        invariant
            0 <= k <= a@.len(),
            r <= 2,
            out@ == start + of_rank(a@, r as int, k as int),
        decreases a@.len() - k,
    {
        let rk: u8 = match a[k].kind {
            Kind::Gather | Kind::Unarmed => 0,
            Kind::Item => 1,
            _ => 2,
        };
        if rk == r {
            out.push(k);
            proof {
                assert(out@ =~= start + of_rank(a@, r as int, k + 1));
            }
        } else {
            proof {
                assert(out@ =~= start + of_rank(a@, r as int, k + 1));
            }
        }
        k = k + 1;
    }
}

proof fn lemma_of_rank_bounds(a: Seq<Surveyed>, r: int, k: int)
    requires
        0 <= k <= a.len(),
    ensures
        of_rank(a, r, k).len() <= k,
        forall|i: int| 0 <= i < of_rank(a, r, k).len() ==> #[trigger] of_rank(a, r, k)[i] < k,
    decreases k,
{
    if k > 0 {
        lemma_of_rank_bounds(a, r, k - 1);
    }
}

proof fn lemma_of_ranks_partition(a: Seq<Surveyed>, k: int)
    requires
        0 <= k <= a.len(),
    ensures
        of_rank(a, 0, k).len() + of_rank(a, 1, k).len() + of_rank(a, 2, k).len() == k,
    decreases k,
{
    if k > 0 {
        lemma_of_ranks_partition(a, k - 1);
    }
}

fn style_exec(s: Surveyed, debug: bool) -> (r: LineStyle)
    ensures
        r == style_of(s, debug),
{
    match s.kind {
        Kind::Gather | Kind::Item | Kind::Interactable | Kind::Unarmed => LineStyle::Node,
        Kind::Inert => if s.close {
            LineStyle::InertDetail
        } else if !debug {
            LineStyle::Hidden
        } else {
            LineStyle::Diagnostic
        },
        _ => LineStyle::Diagnostic,
    }
}

fn count_kind(a: &[Surveyed], kind: Kind) -> (r: usize)
    ensures
        r == count_of(a@, kind, a@.len() as int),
{
    let mut n: usize = 0;
    let mut k: usize = 0;
    while k < a.len()
        invariant
            0 <= k <= a@.len(),
            n == count_of(a@, kind, k as int),
            n <= k,
        decreases a@.len() - k,
    {
        if a[k].kind == kind {
            n = n + 1;
        }
        k = k + 1;
    }
    n
}

/// The survey's listing over the actors within range, nearest first: gather
/// nodes, then ground items, then the rest, each group nearest first; the
/// first `budget` of them get a line, the rest are counted as cut, and the
/// census counts every kind present, in the order of the kinds' names.
pub fn survey_lines(actors: &[Surveyed], budget: usize, debug: bool) -> (r: SurveyLines)
    ensures
        r.lines@ == lines_spec(actors@, budget, debug),
        r.cut == actors@.len() - r.lines@.len(),
        r.counts@ == census_upto(actors@, 12),
{
    let mut order: Vec<usize> = Vec::new();
    collect_rank(actors, 0, &mut order);
    collect_rank(actors, 1, &mut order);
    collect_rank(actors, 2, &mut order);
    let ghost n = actors@.len() as int;
    proof {
        assert(order@ =~= listing(actors@));
        lemma_of_ranks_partition(actors@, n);
        lemma_of_rank_bounds(actors@, 0, n);
        lemma_of_rank_bounds(actors@, 1, n);
        lemma_of_rank_bounds(actors@, 2, n);
        assert forall|i: int| 0 <= i < order@.len() implies #[trigger] order@[i] < n by {
            let z = of_rank(actors@, 0, n);
            let o = of_rank(actors@, 1, n);
            let t = of_rank(actors@, 2, n);
            if i < z.len() {
                assert(order@[i] == z[i]);
            } else if i < z.len() + o.len() {
                assert(order@[i] == o[i - z.len()]);
            } else {
                assert(order@[i] == t[i - z.len() - o.len()]);
            }
        }
    }
    let take = if order.len() < budget { order.len() } else { budget };
    let mut lines: Vec<(usize, LineStyle)> = Vec::new();
    let mut i: usize = 0;
    while i < take
        invariant
            0 <= i <= take,
            take <= order@.len(),
            take as int == (if order@.len() < budget { order@.len() as int } else { budget as int }),
            order@ == listing(actors@),
            order@.len() == actors@.len(),
            forall|j: int| 0 <= j < order@.len() ==> #[trigger] order@[j] < actors@.len(),
            lines@ == Seq::new(i as nat, |j: int| (order@[j], style_of(actors@[order@[j] as int], debug))),
        decreases take - i,
    {
        let idx = order[i];
        let st = style_exec(actors[idx], debug);
        lines.push((idx, st));
        proof {
            assert(lines@ =~= Seq::new((i + 1) as nat, |j: int| (order@[j], style_of(actors@[order@[j] as int], debug))));
        }
        i = i + 1;
    }
    let kinds: [Kind; 12] = [
        Kind::Carcass, Kind::CarcassEmpty, Kind::Catchable, Kind::Character, Kind::Equipment, Kind::Gather,
        Kind::Inert, Kind::Interactable, Kind::Item, Kind::Other, Kind::Player, Kind::Unarmed,
    ];
    proof {
        assert(kinds@ =~= kind_order());
    }
    let mut counts: Vec<(Kind, usize)> = Vec::new();
    let mut j: usize = 0;
    while j < 12
        invariant
            0 <= j <= 12,
            kinds@ == kind_order(),
            counts@ == census_upto(actors@, j as int),
        decreases 12 - j,
    {
        let k = kinds[j];
        let c = count_kind(actors, k);
        if c > 0 {
            counts.push((k, c));
        }
        j = j + 1;
    }
    SurveyLines { lines, cut: actors.len() - take, counts }
}

} // verus!
