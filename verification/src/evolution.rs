//! The first evolutionary loop: every pair of networks plays one game, a
//! network's fitness is `(plays, wins)` where plays are its returns plus
//! shots, and the next generation keeps the elites, crosses every pair of
//! them while places remain, and fills the rest with mutated copies of
//! randomly chosen elites.
use crate::population::{min_nat, pair_order, pairs_from, pairs_upto, pair_row, Offspring};
use crate::random::random_index;
use vstd::prelude::*;

verus! {

/// The tallies of one game, each as `[left, right]`.
#[derive(Clone, Copy, Debug)]
pub struct GameRecord {
    pub score: (u8, u8),
    pub returns: (u16, u16),
    pub shots: (u16, u16),
}

/// What network `k` gains from the game of `a` (left) against `b` (right),
/// played only when `a < b`: plays (returns plus shots) and a win when it
/// scored more; the right player takes the win when the scores are level.
pub open spec fn gain(games: Seq<Seq<GameRecord>>, k: int, a: int, b: int) -> (int, int) {
    if a < b && a == k {
        let g = games[a][b];
        (g.returns.0 + g.shots.0, if g.score.0 > g.score.1 { 1int } else { 0int })
    } else if a < b && b == k {
        let g = games[a][b];
        (g.returns.1 + g.shots.1, if g.score.0 > g.score.1 { 0int } else { 1int })
    } else {
        (0, 0)
    }
}

pub open spec fn row_gain(games: Seq<Seq<GameRecord>>, k: int, a: int, m: int) -> (int, int)
    decreases m,
{
    if m <= 0 {
        (0, 0)
    } else {
        let r = row_gain(games, k, a, m - 1);
        let g = gain(games, k, a, m - 1);
        (r.0 + g.0, r.1 + g.1)
    }
}

pub open spec fn table_gain(games: Seq<Seq<GameRecord>>, k: int, m: int) -> (int, int)
    decreases m,
{
    if m <= 0 {
        (0, 0)
    } else {
        let t = table_gain(games, k, m - 1);
        let r = row_gain(games, k, m - 1, games.len() as int);
        (t.0 + r.0, t.1 + r.1)
    }
}

/// Network `k`'s `(plays, wins)` over all games of the round.
pub open spec fn round_fitness(games: Seq<Seq<GameRecord>>, k: int) -> (int, int) {
    table_gain(games, k, games.len() as int)
}

pub open spec fn records_view(games: Seq<Vec<GameRecord>>) -> Seq<Seq<GameRecord>> {
    games.map_values(|r: Vec<GameRecord>| r@)
}

/// A square table of games, every game's plays fitting their 16-bit tallies,
/// and every network's totals fitting 32-bit signed numbers.
pub open spec fn is_valid_round(games: Seq<Vec<GameRecord>>) -> bool {
    &&& forall|a: int| 0 <= a < games.len() ==> #[trigger] games[a]@.len() == games.len()
    &&& forall|a: int, b: int|
        0 <= a < b < games.len() ==> (#[trigger] games[a]@[b]).returns.0 + games[a]@[b].shots.0
            <= u16::MAX && games[a]@[b].returns.1 + games[a]@[b].shots.1 <= u16::MAX
    &&& forall|k: int|
        0 <= k < games.len() ==> #[trigger] round_fitness(records_view(games), k).0 <= i32::MAX
            && round_fitness(records_view(games), k).1 <= i32::MAX
}

proof fn lemma_row_gain_monotone(t: Seq<Seq<GameRecord>>, k: int, a: int, m: int, m2: int)
    requires
        0 <= m <= m2,
    ensures
        row_gain(t, k, a, m).0 <= row_gain(t, k, a, m2).0,
        row_gain(t, k, a, m).1 <= row_gain(t, k, a, m2).1,
    decreases m2 - m,
{
    if m < m2 {
        lemma_row_gain_monotone(t, k, a, m, m2 - 1);
    }
}

proof fn lemma_table_gain_monotone(t: Seq<Seq<GameRecord>>, k: int, a: int, a2: int)
    requires
        0 <= a <= a2,
    ensures
        table_gain(t, k, a).0 <= table_gain(t, k, a2).0,
        table_gain(t, k, a).1 <= table_gain(t, k, a2).1,
    decreases a2 - a,
{
    if a < a2 {
        lemma_table_gain_monotone(t, k, a, a2 - 1);
        lemma_gains_nonnegative(t, k, a2 - 1, t.len() as int);
    }
}

/// The tallies gathered part-way through a round never exceed the totals.
proof fn lemma_partial_at_most_total(t: Seq<Seq<GameRecord>>, k: int, a: int, m: int)
    requires
        0 <= a < t.len(),
        0 <= m <= t.len(),
    ensures
        table_gain(t, k, a).0 + row_gain(t, k, a, m).0 <= round_fitness(t, k).0,
        table_gain(t, k, a).1 + row_gain(t, k, a, m).1 <= round_fitness(t, k).1,
        table_gain(t, k, a).0 >= 0,
        table_gain(t, k, a).1 >= 0,
{
    lemma_row_gain_monotone(t, k, a, m, t.len() as int);
    lemma_table_gain_monotone(t, k, a + 1, t.len() as int);
    lemma_table_gain_monotone(t, k, 0, a);
}

proof fn lemma_gains_nonnegative(games: Seq<Seq<GameRecord>>, k: int, a: int, m: int)
    ensures
        row_gain(games, k, a, m).0 >= 0,
        row_gain(games, k, a, m).1 >= 0,
    decreases m,
{
    if m > 0 {
        lemma_gains_nonnegative(games, k, a, m - 1);
    }
}

/// Every network's `(plays, wins)` after a round in which `games[a][b]` is
/// the game of `a` against `b` for `a < b`.
pub fn round_robin_fitness(games: &Vec<Vec<GameRecord>>) -> (f: Vec<(i32, i32)>)
    requires
        is_valid_round(games@),
    ensures
        f.len() == games.len(),
        forall|k: int|
            0 <= k < f.len() ==> (#[trigger] f[k]).0 == round_fitness(records_view(games@), k).0
                && f[k].1 == round_fitness(records_view(games@), k).1,
{
    let n = games.len();
    let ghost t = records_view(games@);
    let mut f: Vec<(i32, i32)> = Vec::new();
    while f.len() < n
        invariant
            f.len() <= n,
            forall|k: int| 0 <= k < f.len() ==> #[trigger] f[k] == (0i32, 0i32),
        decreases n - f.len(),
    {
        f.push((0, 0));
    }
    let mut i: usize = 0;
    while i < n
        invariant
            i <= n,
            n == games.len(),
            f.len() == n,
            t == records_view(games@),
            is_valid_round(games@),
            forall|k: int|
                0 <= k < n ==> (#[trigger] f[k]).0 == table_gain(t, k, i as int).0 && f[k].1
                    == table_gain(t, k, i as int).1,
        decreases n - i,
    {
        let mut j: usize = i + 1;
        assert forall|k: int| 0 <= k < n implies #[trigger] row_gain(t, k, i as int, (i + 1) as int) == (0int, 0int) by {
            lemma_row_gain_before(t, k, i as int, i + 1);
        }
        while j < n
            invariant
                i < n,
                i + 1 <= j <= n,
                n == games.len(),
                f.len() == n,
                t == records_view(games@),
                is_valid_round(games@),
                forall|k: int|
                    0 <= k < n ==> (#[trigger] f[k]).0 == table_gain(t, k, i as int).0 + row_gain(
                        t,
                        k,
                        i as int,
                        j as int,
                    ).0 && f[k].1 == table_gain(t, k, i as int).1 + row_gain(t, k, i as int, j as int).1,
            decreases n - j,
        {
            assert(games@[i as int]@.len() == n);
            assert(t[i as int] == games@[i as int]@);
            let g = games[i][j];
            assert(g == games@[i as int]@[j as int]);
            let plays_i = (g.returns.0 + g.shots.0) as i32;
            let plays_j = (g.returns.1 + g.shots.1) as i32;
            let ghost old_f = f@;
            proof {
                lemma_partial_at_most_total(t, i as int, i as int, j + 1);
                lemma_partial_at_most_total(t, j as int, i as int, j + 1);
                lemma_gains_nonnegative(t, i as int, i as int, j + 1);
                lemma_gains_nonnegative(t, j as int, i as int, j + 1);
                assert(round_fitness(t, i as int).0 <= i32::MAX);
                assert(round_fitness(t, j as int).0 <= i32::MAX);
            }
            let (pi, wi) = f[i];
            let (pj, wj) = f[j];
            if g.score.0 > g.score.1 {
                f.set(i, (pi + plays_i, wi + 1));
                f.set(j, (pj + plays_j, wj));
            } else {
                f.set(i, (pi + plays_i, wi));
                f.set(j, (pj + plays_j, wj + 1));
            }
            assert forall|k: int| 0 <= k < n implies (#[trigger] f[k]).0 == table_gain(
                t,
                k,
                i as int,
            ).0 + row_gain(t, k, i as int, j + 1).0 && f[k].1 == table_gain(t, k, i as int).1
                + row_gain(t, k, i as int, j + 1).1 by {
                if k != i && k != j {
                    assert(f[k] == old_f[k]);
                }
            }
            j = j + 1;
        }
        assert forall|k: int| 0 <= k < n implies (#[trigger] f[k]).0 == table_gain(
            t,
            k,
            i + 1,
        ).0 && f[k].1 == table_gain(t, k, i + 1).1 by {}
        i = i + 1;
    }
    f
}

proof fn lemma_row_gain_before(t: Seq<Seq<GameRecord>>, k: int, a: int, m: int)
    requires
        m <= a + 1,
    ensures
        row_gain(t, k, a, m) == (0int, 0int),
    decreases m,
{
    if m > 0 {
        lemma_row_gain_before(t, k, a, m - 1);
    }
}

/// `a` ranks ahead of or level with `b`: more plays, or as many plays and at
/// least as many wins.
pub open spec fn at_least_as_fit(f: Seq<(i32, i32)>, a: usize, b: usize) -> bool {
    f[a as int].0 > f[b as int].0 || (f[a as int].0 == f[b as int].0 && f[a as int].1 >= f[b as int].1)
}

/// Ranks the networks from the fittest down by plays, then wins; networks
/// level on both may come in any order.
pub fn rank_by_plays_then_wins(f: &Vec<(i32, i32)>) -> (order: Vec<usize>)
    ensures
        order.len() == f.len(),
        forall|i: int| 0 <= i < order.len() ==> #[trigger] order[i] < f.len(),
        forall|i: int, j: int|
            0 <= i < j < order.len() ==> at_least_as_fit(f@, #[trigger] order[i], #[trigger] order[j]),
        forall|v: usize| v < f.len() ==> order@.contains(v),
{
    let n = f.len();
    let mut order: Vec<usize> = Vec::new();
    let mut v: usize = 0;
    while v < n
        invariant
            v <= n,
            n == f.len(),
            order.len() == v,
            forall|i: int| 0 <= i < order.len() ==> #[trigger] order[i] < v,
            forall|i: int, j: int|
                0 <= i < j < order.len() ==> at_least_as_fit(f@, #[trigger] order[i], #[trigger] order[j]),
            forall|w: usize| w < v ==> order@.contains(w),
        decreases n - v,
    {
        let mut p: usize = 0;
        while p < order.len() && (f[order[p]].0 > f[v].0 || (f[order[p]].0 == f[v].0 && f[order[p]].1
            >= f[v].1))
            invariant
                p <= order.len(),
                order.len() == v,
                v < n,
                n == f.len(),
                forall|i: int| 0 <= i < order.len() ==> #[trigger] order[i] < v,
                forall|i: int| 0 <= i < p ==> at_least_as_fit(f@, #[trigger] order[i], v),
            decreases order.len() - p,
        {
            p = p + 1;
        }
        let ghost old_order = order@;
        assert(forall|w: usize| w < v ==> old_order.contains(w));
        proof {
            if p < order.len() {
                assert(!at_least_as_fit(f@, order[p as int], v));
                assert forall|q: int| p <= q < order.len() implies at_least_as_fit(
                    f@,
                    v,
                    #[trigger] old_order[q],
                ) by {
                    if q > p {
                        assert(at_least_as_fit(f@, old_order[p as int], old_order[q]));
                    }
                }
            }
        }
        order.insert(p, v);
        proof {
            assert forall|i: int, j: int|
                0 <= i < j < order.len() implies at_least_as_fit(
                f@,
                #[trigger] order[i],
                #[trigger] order[j],
            ) by {
                if j < p {
                    assert(order[i] == old_order[i] && order[j] == old_order[j]);
                } else if j == p {
                    assert(order[i] == old_order[i]);
                } else if i < p {
                    assert(order[i] == old_order[i] && order[j] == old_order[j - 1]);
                    assert(at_least_as_fit(f@, old_order[i], old_order[j - 1]));
                } else if i == p {
                    assert(order[j] == old_order[j - 1]);
                } else {
                    assert(order[i] == old_order[i - 1] && order[j] == old_order[j - 1]);
                }
            }
            assert forall|w: usize| w < v + 1 implies order@.contains(w) by {
                if w == v {
                    assert(order@[p as int] == v);
                } else {
                    assert(old_order.contains(w));
                    let q = choose|q: int| 0 <= q < old_order.len() && old_order[q] == w;
                    if q < p {
                        assert(order@[q] == w);
                    } else {
                        assert(order@[q + 1] == w);
                    }
                }
            }
        }
        v = v + 1;
    }
    order
}

/// The next generation of `n` networks ranked by `order`, with `e` elites:
/// the elites unchanged; crossovers of every pair of elites in lexicographic
/// order of their ranks while places remain; then mutated copies of the
/// elites ranked `picks[t]`.
pub open spec fn breeding_plan(order: Seq<usize>, n: nat, e: nat, picks: Seq<usize>) -> Seq<Offspring> {
    let pairs = pair_order(e);
    let crossings = min_nat(pairs.len(), (n - e) as nat);
    Seq::new(e, |i: int| Offspring::Survivor(order[i])) + Seq::new(
        crossings,
        |k: int| Offspring::Crossover(order[pairs[k].0 as int], order[pairs[k].1 as int]),
    ) + Seq::new((n - e - crossings) as nat, |t: int| Offspring::Mutant(order[picks[t] as int]))
}

/// The breeding plan for given mutation picks (see [`breeding_plan`]).
pub fn breeding_plan_with(order: &Vec<usize>, n: usize, e: usize, picks: &Vec<usize>) -> (plan: Vec<Offspring>)
    requires
        order.len() == n,
        e <= n,
        picks.len() == n - e - min_nat(pair_order(e as nat).len(), (n - e) as nat),
        forall|t: int| 0 <= t < picks.len() ==> #[trigger] picks[t] < e,
    ensures
        plan@ == breeding_plan(order@, n as nat, e as nat, picks@),
{
    let ghost pairs = pair_order(e as nat);
    let mut plan: Vec<Offspring> = Vec::new();
    let mut i: usize = 0;
    while i < e
        invariant
            i <= e <= n,
            order.len() == n,
            plan@ == Seq::new(i as nat, |q: int| Offspring::Survivor(order@[q])),
        decreases e - i,
    {
        plan.push(Offspring::Survivor(order[i]));
        i = i + 1;
        assert(plan@ =~= Seq::new(i as nat, |q: int| Offspring::Survivor(order@[q])));
    }
    let ghost survivors = plan@;
    let mut count: usize = e;
    assert(plan@ =~= survivors + pairs.take(0).map_values(
        |p: (nat, nat)| Offspring::Crossover(order@[p.0 as int], order@[p.1 as int]),
    ));
    let mut a: usize = 0;
    while a < e
        invariant
            a <= e <= n,
            e <= count <= n,
            order.len() == n,
            pairs == pair_order(e as nat),
            count < n ==> count - e == pairs_upto(a as nat, e as nat).len(),
            count - e <= pairs_upto(a as nat, e as nat).len(),
            count - e <= pairs.len(),
            plan@ == survivors + pairs.take(count - e).map_values(
                |p: (nat, nat)| Offspring::Crossover(order@[p.0 as int], order@[p.1 as int]),
            ),
        decreases e - a,
    {
        proof {
            lemma_pairs_split_at(a as nat, e as nat);
            lemma_pairs_split_at((a + 1) as nat, e as nat);
        }
        let ghost base = pairs_upto(a as nat, e as nat).len();
        let mut b: usize = a + 1;
        while b < e
            invariant
                a < e <= n,
                a + 1 <= b <= e,
                e <= count <= n,
                order.len() == n,
                pairs == pair_order(e as nat),
                base == pairs_upto(a as nat, e as nat).len(),
                pairs == pairs_upto(a as nat, e as nat) + pairs_from(a as nat, e as nat),
                pairs_from(a as nat, e as nat) == pair_row(a as nat, e as nat) + pairs_from(
                    (a + 1) as nat,
                    e as nat,
                ),
                count < n ==> count - e == base + (b - a - 1),
                count - e <= base + (b - a - 1),
                plan@ == survivors + pairs.take(count - e).map_values(
                    |p: (nat, nat)| Offspring::Crossover(order@[p.0 as int], order@[p.1 as int]),
                ),
            decreases e - b,
        {
            if count < n {
                let ghost k: int = count - e;
                assert(pairs[k] == (a as nat, b as nat)) by {
                    assert(pairs[k] == pair_row(a as nat, e as nat)[(b - a - 1) as int]);
                }
                plan.push(Offspring::Crossover(order[a], order[b]));
                count = count + 1;
                assert(pairs.take(count - e) =~= pairs.take(k).push(pairs[k]));
                assert(plan@ =~= survivors + pairs.take(count - e).map_values(
                    |p: (nat, nat)| Offspring::Crossover(order@[p.0 as int], order@[p.1 as int]),
                ));
            }
            b = b + 1;
        }
        assert(pairs_upto((a + 1) as nat, e as nat) == pairs_upto(a as nat, e as nat) + pair_row(
            a as nat,
            e as nat,
        ));
        a = a + 1;
    }
    let ghost crossings = count - e;
    proof {
        lemma_pairs_split_at(e as nat, e as nat);
        assert(pairs_upto(e as nat, e as nat) =~= pairs);
        assert(crossings == min_nat(pairs.len(), (n - e) as nat));
    }
    let ghost crossed = plan@;
    let mut t: usize = 0;
    while count < n
        invariant
            e <= count <= n,
            order.len() == n,
            crossings == min_nat(pairs.len(), (n - e) as nat),
            pairs == pair_order(e as nat),
            picks.len() == n - e - crossings,
            forall|t: int| 0 <= t < picks.len() ==> #[trigger] picks[t] < e,
            t == count - e - crossings,
            plan@ == crossed + Seq::new(t as nat, |q: int| Offspring::Mutant(order@[picks@[q] as int])),
        decreases n - count,
    {
        plan.push(Offspring::Mutant(order[picks[t]]));
        t = t + 1;
        count = count + 1;
        assert(plan@ =~= crossed + Seq::new(
            t as nat,
            |q: int| Offspring::Mutant(order@[picks@[q] as int]),
        ));
    }
    assert(plan@ =~= breeding_plan(order@, n as nat, e as nat, picks@));
    plan
}

proof fn lemma_pairs_split_at(i: nat, s: nat)
    requires
        i <= s,
    ensures
        pairs_upto(i, s) + pairs_from(i, s) == pair_order(s),
    decreases i,
{
    if i > 0 {
        lemma_pairs_split_at((i - 1) as nat, s);
        assert(pairs_from((i - 1) as nat, s) == pair_row((i - 1) as nat, s) + pairs_from(i, s));
        assert(pairs_upto(i, s) + pairs_from(i, s) =~= pairs_upto((i - 1) as nat, s) + pairs_from(
            (i - 1) as nat,
            s,
        ));
    } else {
        assert(pairs_upto(0, s) + pairs_from(0, s) =~= pairs_from(0, s));
    }
}

/// The breeding plan with each mutated copy's elite drawn at random.
pub fn next_generation_plan(order: &Vec<usize>, n: usize, e: usize) -> (plan: Vec<Offspring>)
    requires
        order.len() == n,
        e <= n,
        e > 0 || e == n,
    ensures
        exists|picks: Seq<usize>|
            picks.len() == n - e - min_nat(pair_order(e as nat).len(), (n - e) as nat) && (forall|
                t: int,
            | 0 <= t < picks.len() ==> #[trigger] picks[t] < e) && plan@ == breeding_plan(
                order@,
                n as nat,
                e as nat,
                picks,
            ),
{
    let mut i: usize = 0;
    let mut placed: usize = e;
    while i < e
        invariant
            i <= e <= n,
            e <= placed <= n,
            placed - e == min_nat(pairs_upto(i as nat, e as nat).len(), (n - e) as nat),
        decreases e - i,
    {
        let mut j: usize = i + 1;
        let ghost before = placed;
        while j < e
            invariant
                i < e <= n,
                i + 1 <= j <= e,
                e <= placed <= n,
                placed - e == min_nat(
                    (pairs_upto(i as nat, e as nat).len() + (j - i - 1)) as nat,
                    (n - e) as nat,
                ),
            decreases e - j,
        {
            if placed < n {
                placed = placed + 1;
            }
            j = j + 1;
        }
        assert(pairs_upto((i + 1) as nat, e as nat).len() == pairs_upto(i as nat, e as nat).len()
            + pair_row(i as nat, e as nat).len());
        i = i + 1;
    }
    proof {
        lemma_pairs_split_at(e as nat, e as nat);
        assert(pairs_upto(e as nat, e as nat) =~= pair_order(e as nat));
    }
    let mut picks: Vec<usize> = Vec::new();
    while picks.len() < n - placed
        invariant
            e <= placed <= n,
            e > 0 || e == n,
            picks.len() <= n - placed,
            forall|t: int| 0 <= t < picks.len() ==> #[trigger] picks[t] < e,
        decreases n - placed - picks.len(),
    {
        picks.push(random_index(e));
    }
    breeding_plan_with(order, n, e, &picks)
}

// ---------------------------------------------------------------------------
// Wins of a round
// ---------------------------------------------------------------------------

/// The wins of networks `0..m` after a round.
pub open spec fn total_wins(games: Seq<Seq<GameRecord>>, m: int) -> int
    decreases m,
{
    if m <= 0 {
        0
    } else {
        total_wins(games, m - 1) + round_fitness(games, m - 1).1
    }
}

/// Wins that the networks `0..m` take from the game of `a` against `b`.
spec fn game_wins(t: Seq<Seq<GameRecord>>, a: int, b: int, m: int) -> int
    decreases m,
{
    if m <= 0 {
        0
    } else {
        game_wins(t, a, b, m - 1) + gain(t, m - 1, a, b).1
    }
}

/// Wins that the networks `0..m` take from the games of left player `a`
/// against the first `cols` opponents, summed game by game.
spec fn wins_by_game(t: Seq<Seq<GameRecord>>, a: int, m: int, cols: int) -> int
    decreases cols,
{
    if cols <= 0 {
        0
    } else {
        wins_by_game(t, a, m, cols - 1) + game_wins(t, a, cols - 1, m)
    }
}

/// Wins that the networks `0..m` take from the games of left player `a`,
/// summed network by network.
spec fn wins_by_network(t: Seq<Seq<GameRecord>>, a: int, m: int) -> int
    decreases m,
{
    if m <= 0 {
        0
    } else {
        wins_by_network(t, a, m - 1) + row_gain(t, m - 1, a, t.len() as int).1
    }
}

/// Wins that the networks `0..m` take from the games of the left players
/// `0..rows`.
spec fn wins_by_left_player(t: Seq<Seq<GameRecord>>, m: int, rows: int) -> int
    decreases rows,
{
    if rows <= 0 {
        0
    } else {
        wins_by_left_player(t, m, rows - 1) + wins_by_network(t, rows - 1, m)
    }
}

proof fn lemma_wins_by_game_step(t: Seq<Seq<GameRecord>>, a: int, m: int, cols: int)
    requires
        m >= 1,
    ensures
        wins_by_game(t, a, m, cols) == wins_by_game(t, a, m - 1, cols) + row_gain(t, m - 1, a, cols).1,
    decreases cols,
{
    if cols > 0 {
        lemma_wins_by_game_step(t, a, m, cols - 1);
    }
}

proof fn lemma_wins_by_game_none(t: Seq<Seq<GameRecord>>, a: int, cols: int)
    ensures
        wins_by_game(t, a, 0, cols) == 0,
    decreases cols,
{
    if cols > 0 {
        lemma_wins_by_game_none(t, a, cols - 1);
    }
}

proof fn lemma_network_sum_is_game_sum(t: Seq<Seq<GameRecord>>, a: int, m: int)
    requires
        m >= 0,
    ensures
        wins_by_network(t, a, m) == wins_by_game(t, a, m, t.len() as int),
    decreases m,
{
    if m > 0 {
        lemma_network_sum_is_game_sum(t, a, m - 1);
        lemma_wins_by_game_step(t, a, m, t.len() as int);
    } else {
        lemma_wins_by_game_none(t, a, t.len() as int);
    }
}

proof fn lemma_left_player_step(t: Seq<Seq<GameRecord>>, m: int, rows: int)
    requires
        m >= 1,
    ensures
        wins_by_left_player(t, m, rows) == wins_by_left_player(t, m - 1, rows) + table_gain(
            t,
            m - 1,
            rows,
        ).1,
    decreases rows,
{
    if rows > 0 {
        lemma_left_player_step(t, m, rows - 1);
    }
}

proof fn lemma_left_player_none(t: Seq<Seq<GameRecord>>, rows: int)
    ensures
        wins_by_left_player(t, 0, rows) == 0,
    decreases rows,
{
    if rows > 0 {
        lemma_left_player_none(t, rows - 1);
    }
}

proof fn lemma_total_by_left_player(t: Seq<Seq<GameRecord>>, m: int)
    requires
        m >= 0,
    ensures
        total_wins(t, m) == wins_by_left_player(t, m, t.len() as int),
    decreases m,
{
    if m > 0 {
        lemma_total_by_left_player(t, m - 1);
        lemma_left_player_step(t, m, t.len() as int);
    } else {
        lemma_left_player_none(t, t.len() as int);
    }
}

proof fn lemma_game_wins(t: Seq<Seq<GameRecord>>, a: int, b: int, m: int)
    requires
        0 <= a,
        0 <= b,
    ensures
        game_wins(t, a, b, m) == (if a < b {
            (if a < m {
                gain(t, a, a, b).1
            } else {
                0
            }) + (if b < m {
                gain(t, b, a, b).1
            } else {
                0
            })
        } else {
            0
        }),
    decreases m,
{
    if m > 0 {
        lemma_game_wins(t, a, b, m - 1);
    }
}

proof fn lemma_wins_of_left_player(t: Seq<Seq<GameRecord>>, a: int, cols: int)
    requires
        0 <= a < t.len(),
        0 <= cols <= t.len(),
    ensures
        wins_by_game(t, a, t.len() as int, cols) == if cols - 1 > a {
            cols - 1 - a
        } else {
            0
        },
    decreases cols,
{
    if cols > 0 {
        lemma_wins_of_left_player(t, a, cols - 1);
        lemma_game_wins(t, a, cols - 1, t.len() as int);
    }
}

proof fn lemma_triangle(t: Seq<Seq<GameRecord>>, rows: int)
    requires
        0 <= rows <= t.len(),
    ensures
        2 * wins_by_left_player(t, t.len() as int, rows) == rows * (2 * (t.len() as int) - 1 - rows),
    decreases rows,
{
    if rows > 0 {
        let n = t.len() as int;
        lemma_triangle(t, rows - 1);
        lemma_network_sum_is_game_sum(t, rows - 1, n);
        lemma_wins_of_left_player(t, rows - 1, n);
        assert(wins_by_network(t, rows - 1, n) == n - rows);
        assert(wins_by_left_player(t, n, rows) == wins_by_left_player(t, n, rows - 1) + n - rows);
        assert(rows * (2 * n - 1 - rows) == (rows - 1) * (2 * n - 1 - (rows - 1)) + 2 * (n - 1 - (
        rows - 1))) by (nonlinear_arith);
        assert(2 * wins_by_left_player(t, n, rows) == rows * (2 * n - 1 - rows));
    } else {
        assert(rows * (2 * (t.len() as int) - 1 - rows) == 0) by (nonlinear_arith)
            requires
                rows == 0,
        ;
    }
}

/// Every game of a round awards exactly one win, to the left network when it
/// scored more and to the right one otherwise: the wins of all `n` networks
/// add up to the number of games, `n * (n - 1) / 2`.
pub proof fn lemma_round_awards_one_win_per_game(games: Seq<Seq<GameRecord>>)
    ensures
        2 * total_wins(games, games.len() as int) == games.len() * (games.len() - 1),
{
    let n = games.len() as int;
    lemma_total_by_left_player(games, n);
    lemma_triangle(games, n);
    assert(n * (2 * n - 1 - n) == n * (n - 1));
}

} // verus!
