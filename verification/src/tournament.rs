//! A tournament of sampled matches: each individual plays a few randomly
//! chosen opponents, serving alternately, and gains a point for each match it
//! wins and loses one for each match it loses. Fitness orders the group from
//! weakest to strongest, and the strongest (the elites, at the end) seed the
//! rest of the next generation.
use crate::random::random_index;
use rand::seq::IteratorRandom;
use vstd::prelude::*;

verus! {

/// A side of the field.
#[derive(Clone, Copy, Debug, PartialEq, Eq, Structural)]
pub enum Side {
    Left,
    Right,
}

/// Most ticks a match may last.
pub const MAX_MATCH_TICKS: usize = 7200;

/// The side that serves in an individual's `j`-th match: left for even `j`,
/// right for odd `j`.
pub fn serve_side(j: usize) -> (s: Side)
    ensures
        s == (if j % 2 == 0 {
            Side::Left
        } else {
            Side::Right
        }),
{
    if j % 2 == 0 {
        Side::Left
    } else {
        Side::Right
    }
}

/// Where a match stands after a tick.
#[derive(Clone, Copy, Debug, PartialEq, Eq, Structural)]
pub enum MatchStatus {
    /// The match goes on; the number of ticks played so far.
    Running(usize),
    /// The match is decided: the winner and the tick at which it was decided.
    Finished(Side, usize),
}

/// The verdict on a match that has lasted `ticks` ticks before the next one
/// is played: once the limit is reached, the left side is declared winner.
pub fn deadline_verdict(ticks: usize) -> (r: Option<(Side, usize)>)
    ensures
        r == (if ticks >= MAX_MATCH_TICKS {
            Some((Side::Left, ticks))
        } else {
            None
        }),
{
    if ticks >= MAX_MATCH_TICKS {
        Some((Side::Left, ticks))
    } else {
        None
    }
}

/// The status of a match after tick number `ticks` was played and ended
/// with `scorer` scoring (or nobody).
pub fn after_tick(ticks: usize, scorer: Option<Side>) -> (r: MatchStatus)
    requires
        ticks < MAX_MATCH_TICKS,
    ensures
        r == (match scorer {
            Some(w) => MatchStatus::Finished(w, ticks),
            None => MatchStatus::Running((ticks + 1) as usize),
        }),
{
    match scorer {
        Some(w) => MatchStatus::Finished(w, ticks),
        None => MatchStatus::Running(ticks + 1),
    }
}

/// Points for the individual playing on the left: one for each match the
/// left side won, minus one for each it lost.
pub open spec fn match_points(winners: Seq<Side>) -> int
    decreases winners.len(),
{
    if winners.len() == 0 {
        0
    } else {
        match_points(winners.drop_last()) + if winners.last() == Side::Left {
            1int
        } else {
            -1int
        }
    }
}

/// An individual's points from a round lie between minus and plus the number
/// of matches it played.
pub proof fn lemma_match_points_bound(winners: Seq<Side>)
    ensures
        -winners.len() <= match_points(winners) <= winners.len(),
    decreases winners.len(),
{
    if winners.len() > 0 {
        lemma_match_points_bound(winners.drop_last());
    }
}

/// The fitness change of an individual whose matches (played on the left)
/// were won by `winners`.
pub fn fitness_delta(winners: &Vec<Side>) -> (d: i8)
    requires
        winners.len() <= 127,
    ensures
        d == match_points(winners@),
{
    let mut d: i8 = 0;
    let mut k: usize = 0;
    while k < winners.len()
        invariant
            k <= winners.len() <= 127,
            d == match_points(winners@.take(k as int)),
        decreases winners.len() - k,
    {
        proof {
            lemma_match_points_bound(winners@.take(k as int));
            assert(winners@.take(k + 1).drop_last() =~= winners@.take(k as int));
        }
        if winners[k] == Side::Left {
            d = d + 1;
        } else {
            d = d - 1;
        }
        k = k + 1;
    }
    assert(winners@.take(k as int) =~= winners@);
    d
}

/// The longest of the matches' durations, or 0 when there were none.
pub open spec fn longest(ticks: Seq<usize>) -> int
    decreases ticks.len(),
{
    if ticks.len() == 0 {
        0
    } else {
        let r = longest(ticks.drop_last());
        if ticks.last() > r {
            ticks.last() as int
        } else {
            r
        }
    }
}

/// The duration of the longest match of a round.
pub fn longest_match(ticks: &Vec<usize>) -> (m: usize)
    ensures
        m == longest(ticks@),
        forall|i: int| 0 <= i < ticks.len() ==> #[trigger] ticks[i] <= m,
{
    let mut m: usize = 0;
    let mut k: usize = 0;
    while k < ticks.len()
        invariant
            k <= ticks.len(),
            m == longest(ticks@.take(k as int)),
            forall|i: int| 0 <= i < k ==> #[trigger] ticks[i] <= m,
        decreases ticks.len() - k,
    {
        assert(ticks@.take(k + 1).drop_last() =~= ticks@.take(k as int));
        if ticks[k] > m {
            m = ticks[k];
        }
        k = k + 1;
    }
    assert(ticks@.take(k as int) =~= ticks@);
    m
}

/// Adds each individual's delta to its fitness.
pub fn apply_deltas(fitness: &mut Vec<i8>, deltas: &Vec<i8>)
    requires
        old(fitness).len() == deltas.len(),
        forall|i: int|
            0 <= i < deltas.len() ==> i8::MIN <= #[trigger] old(fitness)[i] + deltas[i] <= i8::MAX,
    ensures
        final(fitness).len() == deltas.len(),
        forall|i: int| 0 <= i < deltas.len() ==> #[trigger] final(fitness)[i] == old(fitness)[i] + deltas[i],
{
    let mut i: usize = 0;
    while i < deltas.len()
        invariant
            i <= deltas.len(),
            fitness.len() == deltas.len(),
            forall|k: int|
                0 <= k < deltas.len() ==> i8::MIN <= #[trigger] old(fitness)[k] + deltas[k] <= i8::MAX,
            forall|k: int| 0 <= k < i ==> #[trigger] fitness[k] == old(fitness)[k] + deltas[k],
            forall|k: int| i <= k < deltas.len() ==> #[trigger] fitness[k] == old(fitness)[k],
        decreases deltas.len() - i,
    {
        let v = fitness[i] + deltas[i];
        fitness.set(i, v);
        i = i + 1;
    }
}

/// Picks up to `amount` of `candidates` at random, each at most once.
///
/// Trusted: calls rand's `IteratorRandom::choose_multiple` (rand 0.9) on the
/// candidates. Its reservoir sampling returns `min(amount, candidates.len())`
/// items, each taken from a different position of the input; which ones, and
/// in what order, is left to chance.
#[verifier::external_body]
fn choose_multiple_of(candidates: &Vec<usize>, amount: usize) -> (r: Vec<usize>)
    ensures
        r.len() == (if amount <= candidates.len() {
            amount
        } else {
            candidates.len()
        }),
        forall|x: int| 0 <= x < r.len() ==> candidates@.contains(#[trigger] r[x]),
        candidates@.no_duplicates() ==> r@.no_duplicates(),
{
    candidates.iter().copied().choose_multiple(&mut rand::rng(), amount)
}

/// Chooses at random `tournament_size - 1` distinct opponents for individual
/// `i` in a group of `n` (fewer when the group is smaller), never `i` itself.
pub fn pick_opponents(n: usize, i: usize, tournament_size: usize) -> (r: Vec<usize>)
    requires
        i < n,
        tournament_size >= 1,
    ensures
        r.len() == (if tournament_size - 1 <= n - 1 {
            tournament_size - 1
        } else {
            n - 1
        }),
        forall|x: int| 0 <= x < r.len() ==> #[trigger] r[x] < n && r[x] != i,
        r@.no_duplicates(),
{
    let mut others: Vec<usize> = Vec::new();
    let mut j: usize = 0;
    while j < n
        invariant
            j <= n,
            i < n,
            others.len() == if j <= i { j as int } else { j - 1 },
            forall|x: int| 0 <= x < others.len() ==> #[trigger] others[x] < j && others[x] != i,
            forall|x: int, y: int| 0 <= x < y < others.len() ==> #[trigger] others[x] < #[trigger] others[y],
        decreases n - j,
    {
        if j != i {
            others.push(j);
        }
        j = j + 1;
    }
    assert(others@.no_duplicates()) by {
        assert forall|x: int, y: int| 0 <= x < others.len() && 0 <= y < others.len() && x != y implies others[x] != others[y] by {
            if x < y {
                assert(others[x] < others[y]);
            } else {
                assert(others[y] < others[x]);
            }
        }
    }
    let r = choose_multiple_of(&others, tournament_size - 1);
    assert forall|x: int| 0 <= x < r.len() implies #[trigger] r[x] < n && r[x] != i by {
        assert(others@.contains(r[x]));
    }
    r
}

/// For each of the `n - elites` weakest individuals (at the front), the
/// index of the elite (at the back) whose genome it takes before mutating.
pub fn mutation_sources(n: usize, elites: usize) -> (r: Vec<usize>)
    requires
        elites <= n,
        elites > 0 || elites == n,
    ensures
        r.len() == n - elites,
        forall|k: int| 0 <= k < r.len() ==> n - elites <= #[trigger] r[k] < n,
{
    let mut r: Vec<usize> = Vec::new();
    while r.len() < n - elites
        invariant
            elites <= n,
            elites > 0 || elites == n,
            r.len() <= n - elites,
            forall|k: int| 0 <= k < r.len() ==> n - elites <= #[trigger] r[k] < n,
        decreases n - elites - r.len(),
    {
        let e = random_index(elites);
        r.push((n - elites) + e);
    }
    r
}

/// Individual `a` comes before `b` when the group is sorted by fitness from
/// weakest to strongest, equal fitness keeping the earlier first.
pub open spec fn weaker_first(fitness: Seq<i8>, a: usize, b: usize) -> bool {
    fitness[a as int] < fitness[b as int] || (fitness[a as int] == fitness[b as int] && a < b)
}

/// Orders the group from weakest to strongest, as a stable sort by fitness
/// does: the result lists every index once.
pub fn rank_weakest_first(fitness: &Vec<i8>) -> (order: Vec<usize>)
    ensures
        order.len() == fitness.len(),
        forall|i: int| 0 <= i < order.len() ==> #[trigger] order[i] < fitness.len(),
        forall|i: int, j: int|
            0 <= i < j < order.len() ==> weaker_first(fitness@, #[trigger] order[i], #[trigger] order[j]),
        forall|v: usize| v < fitness.len() ==> order@.contains(v),
        is_weakest_first(fitness@, order@),
{
    let n = fitness.len();
    let mut order: Vec<usize> = Vec::new();
    let mut v: usize = 0;
    while v < n
        invariant
            v <= n,
            n == fitness.len(),
            order.len() == v,
            forall|i: int| 0 <= i < order.len() ==> #[trigger] order[i] < v,
            forall|i: int, j: int|
                0 <= i < j < order.len() ==> weaker_first(fitness@, #[trigger] order[i], #[trigger] order[j]),
            forall|w: usize| w < v ==> order@.contains(w),
        decreases n - v,
    {
        let mut p: usize = 0;
        while p < order.len() && (fitness[order[p]] < fitness[v] || (fitness[order[p]]
            == fitness[v] && order[p] < v))
            invariant
                p <= order.len(),
                order.len() == v,
                v < n,
                n == fitness.len(),
                forall|i: int| 0 <= i < order.len() ==> #[trigger] order[i] < v,
                forall|i: int| 0 <= i < p ==> weaker_first(fitness@, #[trigger] order[i], v),
            decreases order.len() - p,
        {
            p = p + 1;
        }
        let ghost old_order = order@;
        assert(forall|w: usize| w < v ==> old_order.contains(w));
        proof {
            if p < order.len() {
                assert(!weaker_first(fitness@, order[p as int], v));
                assert forall|q: int| p <= q < order.len() implies weaker_first(
                    fitness@,
                    v,
                    #[trigger] old_order[q],
                ) by {
                    if q > p {
                        assert(weaker_first(fitness@, old_order[p as int], old_order[q]));
                    }
                }
            }
        }
        order.insert(p, v);
        proof {
            assert forall|i: int, j: int|
                0 <= i < j < order.len() implies weaker_first(
                fitness@,
                #[trigger] order[i],
                #[trigger] order[j],
            ) by {
                if j < p {
                    assert(order[i] == old_order[i] && order[j] == old_order[j]);
                } else if j == p {
                    assert(order[i] == old_order[i]);
                } else if i < p {
                    assert(order[i] == old_order[i] && order[j] == old_order[j - 1]);
                    assert(weaker_first(fitness@, old_order[i], old_order[j - 1]));
                } else if i == p {
                    assert(order[j] == old_order[j - 1]);
                } else {
                    assert(order[i] == old_order[i - 1] && order[j] == old_order[j - 1]);
                }
            }
            assert forall|w: usize| w < v + 1 implies order@.contains(w) by {
                if w == v {
                    assert(order@[p as int] == v);
                } else {
                    assert(old_order.contains(w));
                    let q = choose|q: int| 0 <= q < old_order.len() && old_order[q] == w;
                    if q < p {
                        assert(order@[q] == w);
                    } else {
                        assert(order@[q + 1] == w);
                    }
                }
            }
        }
        v = v + 1;
    }
    order
}

/// `order` lists every individual of the group once, weakest first.
pub open spec fn is_weakest_first(fitness: Seq<i8>, order: Seq<usize>) -> bool {
    &&& order.len() == fitness.len()
    &&& forall|i: int| 0 <= i < order.len() ==> #[trigger] order[i] < fitness.len()
    &&& forall|i: int, j: int|
        0 <= i < j < order.len() ==> weaker_first(fitness, #[trigger] order[i], #[trigger] order[j])
    &&& forall|v: usize| v < fitness.len() ==> order.contains(v)
}

proof fn lemma_weakest_first_agree_upto(fitness: Seq<i8>, a: Seq<usize>, b: Seq<usize>, i: int)
    requires
        is_weakest_first(fitness, a),
        is_weakest_first(fitness, b),
        0 <= i <= a.len(),
    ensures
        forall|k: int| 0 <= k < i ==> #[trigger] a[k] == b[k],
    decreases i,
{
    if i > 0 {
        let m = i - 1;
        lemma_weakest_first_agree_upto(fitness, a, b, m);
        if a[m] != b[m] {
            let x = a[m];
            let y = b[m];
            assert(b.contains(x));
            let q = choose|q: int| 0 <= q < b.len() && b[q] == x;
            assert(a.contains(y));
            let p = choose|p: int| 0 <= p < a.len() && a[p] == y;
            if q < m {
                assert(a[q] == b[q]);
                assert(weaker_first(fitness, a[q], a[m]));
            }
            if p < m {
                assert(b[p] == a[p]);
                assert(weaker_first(fitness, b[p], b[m]));
            }
            assert(q > m && p > m);
            assert(weaker_first(fitness, a[m], a[p]));
            assert(weaker_first(fitness, b[m], b[q]));
        }
    }
}

/// A group has exactly one weakest-first order: the stable sort by fitness.
pub proof fn lemma_weakest_first_unique(fitness: Seq<i8>, a: Seq<usize>, b: Seq<usize>)
    requires
        is_weakest_first(fitness, a),
        is_weakest_first(fitness, b),
    ensures
        a == b,
{
    lemma_weakest_first_agree_upto(fitness, a, b, a.len() as int);
    assert(a =~= b);
}

} // verus!
