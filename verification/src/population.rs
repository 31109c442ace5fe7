//! Fitness bookkeeping and breeding for a population evaluated by a full
//! round-robin tournament.
//!
//! Each individual plays every other individual once on each side of the
//! field. A game yields, for each side, a primary and a secondary score; both
//! are packed into one 64-bit number (primary in the high half) and added,
//! wrapping, to the individual's fitness, so that ordering fitness numbers
//! ranks by primary score first and secondary score second.
use crate::config::ReproductionStrategy;
use crate::random::random_index;
use vstd::arithmetic::div_mod::lemma_add_mod_noop;
use vstd::prelude::*;

verus! {

/// The scores of one game: `(left primary, left secondary)` and
/// `(right primary, right secondary)`.
pub type GameScores = ((u32, u32), (u32, u32));

pub open spec fn two_pow_32() -> int {
    0x1_0000_0000
}

pub open spec fn two_pow_64() -> int {
    0x1_0000_0000_0000_0000
}

/// The packed value of a primary and a secondary score.
pub open spec fn packed(primary: u32, secondary: u32) -> int {
    primary as int * two_pow_32() + secondary as int
}

/// Packs a primary score into the high half and a secondary score into the
/// low half of a 64-bit fitness number.
pub fn pack_score(primary: u32, secondary: u32) -> (r: u64)
    ensures
        r as int == packed(primary, secondary),
{
    let r = ((primary as u64) << 32u64) | (secondary as u64);
    assert(((primary as u64) << 32u64) | (secondary as u64) == (primary as u64) * 0x1_0000_0000u64
        + (secondary as u64)) by (bit_vector)
        requires
            primary <= 0xffff_ffffu32,
            secondary <= 0xffff_ffffu32,
    ;
    r
}

/// The primary score held in the high half of a fitness number.
pub fn primary_score(fitness: u64) -> (r: u32)
    ensures
        r as int == fitness as int / two_pow_32(),
{
    let r = (fitness >> 32u64) as u32;
    assert(fitness >> 32u64 == fitness / 0x1_0000_0000u64) by (bit_vector);
    r
}

/// Packing orders score pairs as pairs are ordered lexicographically: by
/// primary score, then by secondary score.
pub proof fn lemma_packing_is_lexicographic(p1: u32, s1: u32, p2: u32, s2: u32)
    ensures
        packed(p1, s1) < packed(p2, s2) <==> (p1 < p2 || (p1 == p2 && s1 < s2)),
        packed(p1, s1) == packed(p2, s2) <==> (p1 == p2 && s1 == s2),
{
    if p1 < p2 {
        assert(p1 as int * two_pow_32() + two_pow_32() <= p2 as int * two_pow_32()) by (
        nonlinear_arith)
            requires
                p1 < p2,
        ;
    } else if p1 > p2 {
        assert(p2 as int * two_pow_32() + two_pow_32() <= p1 as int * two_pow_32()) by (
        nonlinear_arith)
            requires
                p2 < p1,
        ;
    }
}

/// The primary score of a packed score is the primary score that was packed.
pub proof fn lemma_primary_of_packed(primary: u32, secondary: u32)
    ensures
        packed(primary, secondary) / two_pow_32() == primary,
        packed(primary, secondary) < two_pow_64(),
{
    vstd::arithmetic::div_mod::lemma_fundamental_div_mod_converse(
        packed(primary, secondary),
        two_pow_32(),
        primary as int,
        secondary as int,
    );
    assert(primary as int * two_pow_32() <= 0xffff_ffff * two_pow_32()) by (nonlinear_arith)
        requires
            primary <= 0xffff_ffff,
    ;
}

/// The packed score that individual `k` earns from the game in which `a`
/// played on the left and `b` on the right (no game when `a == b`).
pub open spec fn contribution(results: Seq<Seq<GameScores>>, k: int, a: int, b: int) -> int {
    if a == b {
        0
    } else {
        (if a == k {
            packed(results[a][b].0.0, results[a][b].0.1)
        } else {
            0
        }) + (if b == k {
            packed(results[a][b].1.0, results[a][b].1.1)
        } else {
            0
        })
    }
}

/// What `k` earns in the games of row `a` against the first `m` opponents.
pub open spec fn row_total(results: Seq<Seq<GameScores>>, k: int, a: int, m: int) -> int
    decreases m,
{
    if m <= 0 {
        0
    } else {
        row_total(results, k, a, m - 1) + contribution(results, k, a, m - 1)
    }
}

/// What `k` earns in all games whose left player is among the first `m`.
pub open spec fn table_total(results: Seq<Seq<GameScores>>, k: int, m: int) -> int
    decreases m,
{
    if m <= 0 {
        0
    } else {
        table_total(results, k, m - 1) + row_total(results, k, m - 1, results.len() as int)
    }
}

/// The fitness of `k` after the tournament: every packed score it earned,
/// summed with wrap-around at 2^64.
pub open spec fn tournament_fitness(results: Seq<Seq<GameScores>>, k: int) -> int {
    table_total(results, k, results.len() as int) % two_pow_64()
}

/// `results[a][b]` is the outcome of `a` (left) against `b` (right) for every
/// two individuals; the diagonal is not read.
pub open spec fn is_result_table(results: Seq<Vec<GameScores>>) -> bool {
    forall|a: int| 0 <= a < results.len() ==> #[trigger] results[a]@.len() == results.len()
}

pub open spec fn table_view(results: Seq<Vec<GameScores>>) -> Seq<Seq<GameScores>> {
    results.map_values(|r: Vec<GameScores>| r@)
}

proof fn lemma_wrapping_step(f: u64, total: int, c: int)
    requires
        f as int == total % two_pow_64(),
        0 <= c < two_pow_64(),
    ensures
        vstd::wrapping::u64_specs::wrapping_add(f, c as u64) as int == (total + c) % two_pow_64(),
{
    lemma_add_mod_noop(total, c, two_pow_64());
    assert(c % two_pow_64() == c) by {
        vstd::arithmetic::div_mod::lemma_small_mod(c as nat, two_pow_64() as nat);
    }
    assert(f as int + c < 2 * two_pow_64());
    if f as int + c >= two_pow_64() {
        assert((f as int + c) % two_pow_64() == f as int + c - two_pow_64());
    } else {
        vstd::arithmetic::div_mod::lemma_small_mod((f as int + c) as nat, two_pow_64() as nat);
    }
}

/// The fitness of every individual after a round-robin tournament whose
/// outcomes are `results`: what the sequential and the parallel evaluations
/// of the population both compute, since wrapping sums do not depend on
/// the order of their terms.
pub fn tournament_fitness_scores(results: &Vec<Vec<GameScores>>) -> (f: Vec<u64>)
    requires
        is_result_table(results@),
    ensures
        f.len() == results.len(),
        forall|k: int|
            0 <= k < f.len() ==> #[trigger] f[k] as int == tournament_fitness(
                table_view(results@),
                k,
            ),
{
    let n = results.len();
    let ghost t = table_view(results@);
    let mut f: Vec<u64> = Vec::new();
    while f.len() < n
        invariant
            f.len() <= n,
            forall|k: int| 0 <= k < f.len() ==> #[trigger] f[k] == 0,
        decreases n - f.len(),
    {
        f.push(0);
    }
    assert forall|k: int| 0 <= k < n implies #[trigger] f[k] as int == table_total(t, k, 0)
        % two_pow_64() by {}
    let mut i: usize = 0;
    while i < n
        invariant
            i <= n,
            n == results.len(),
            f.len() == n,
            t == table_view(results@),
            is_result_table(results@),
            forall|k: int| 0 <= k < n ==> #[trigger] f[k] as int == table_total(t, k, i as int)
                % two_pow_64(),
        decreases n - i,
    {
        let mut j: usize = 0;
        while j < n
            invariant
                i < n,
                j <= n,
                n == results.len(),
                f.len() == n,
                t == table_view(results@),
                is_result_table(results@),
                forall|k: int|
                    0 <= k < n ==> #[trigger] f[k] as int == (table_total(t, k, i as int)
                        + row_total(t, k, i as int, j as int)) % two_pow_64(),
            decreases n - j,
        {
            assert(results@[i as int]@.len() == n);
            assert(t[i as int] == results@[i as int]@);
            if i != j {
                let ((lp, ls), (rp, rs)) = results[i][j];
                let left = pack_score(lp, ls);
                let right = pack_score(rp, rs);
                let ghost old_f = f@;
                let fi = f[i].wrapping_add(left);
                proof {
                    lemma_wrapping_step(
                        f[i as int],
                        table_total(t, i as int, i as int) + row_total(t, i as int, i as int, j as int),
                        left as int,
                    );
                }
                f.set(i, fi);
                let fj = f[j].wrapping_add(right);
                proof {
                    lemma_wrapping_step(
                        old_f[j as int],
                        table_total(t, j as int, i as int) + row_total(t, j as int, i as int, j as int),
                        right as int,
                    );
                }
                f.set(j, fj);
                assert forall|k: int| 0 <= k < n implies #[trigger] f[k] as int == (table_total(
                    t,
                    k,
                    i as int,
                ) + row_total(t, k, i as int, j + 1)) % two_pow_64() by {
                    if k != i && k != j {
                        assert(f[k] == old_f[k]);
                    }
                }
            }
            j = j + 1;
        }
        i = i + 1;
    }
    f
}

// ---------------------------------------------------------------------------
// Ranking
// ---------------------------------------------------------------------------

/// Individual `a` is ranked ahead of `b`: higher fitness first, and of equal
/// fitness the higher index first (sorting by fitness, stably, then reversing).
pub open spec fn ranks_ahead(fitness: Seq<u64>, a: usize, b: usize) -> bool {
    fitness[a as int] > fitness[b as int] || (fitness[a as int] == fitness[b as int] && a > b)
}

/// `order` lists every individual `0..fitness.len()` once, best first.
pub open spec fn is_ranking(fitness: Seq<u64>, order: Seq<usize>) -> bool {
    &&& order.len() == fitness.len()
    &&& forall|i: int| 0 <= i < order.len() ==> #[trigger] order[i] < fitness.len()
    &&& forall|i: int, j: int|
        0 <= i < j < order.len() ==> ranks_ahead(fitness, #[trigger] order[i], #[trigger] order[j])
}

/// Ranks the population from the fittest down; equally fit individuals with
/// higher indices come first.
pub fn select_elites(fitness: &Vec<u64>) -> (order: Vec<usize>)
    ensures
        is_ranking(fitness@, order@),
        forall|v: usize| v < fitness.len() ==> order@.contains(v),
{
    let n = fitness.len();
    let mut order: Vec<usize> = Vec::new();
    let mut v: usize = 0;
    while v < n
        invariant
            v <= n,
            n == fitness.len(),
            order.len() == v,
            forall|i: int| 0 <= i < order.len() ==> #[trigger] order[i] < v,
            forall|i: int, j: int|
                0 <= i < j < order.len() ==> ranks_ahead(
                    fitness@,
                    #[trigger] order[i],
                    #[trigger] order[j],
                ),
            forall|w: usize| w < v ==> order@.contains(w),
        decreases n - v,
    {
        let mut p: usize = 0;
        while p < order.len() && (fitness[order[p]] > fitness[v] || (fitness[order[p]]
            == fitness[v] && order[p] > v))
            invariant
                p <= order.len(),
                order.len() == v,
                v < n,
                n == fitness.len(),
                forall|i: int| 0 <= i < order.len() ==> #[trigger] order[i] < v,
                forall|i: int| 0 <= i < p ==> ranks_ahead(fitness@, #[trigger] order[i], v),
            decreases order.len() - p,
        {
            p = p + 1;
        }
        let ghost old_order = order@;
        assert(forall|w: usize| w < v ==> old_order.contains(w));
        proof {
            if p < order.len() {
                assert(!ranks_ahead(fitness@, order[p as int], v));
                assert forall|q: int| p <= q < order.len() implies ranks_ahead(
                    fitness@,
                    v,
                    #[trigger] old_order[q],
                ) by {
                    if q > p {
                        assert(ranks_ahead(fitness@, old_order[p as int], old_order[q]));
                    }
                }
            }
        }
        order.insert(p, v);
        proof {
            assert forall|i: int, j: int|
                0 <= i < j < order.len() implies ranks_ahead(
                fitness@,
                #[trigger] order[i],
                #[trigger] order[j],
            ) by {
                if j < p {
                    assert(order[i] == old_order[i] && order[j] == old_order[j]);
                } else if j == p {
                    assert(order[i] == old_order[i]);
                } else if i < p {
                    assert(order[i] == old_order[i] && order[j] == old_order[j - 1]);
                    assert(ranks_ahead(fitness@, old_order[i], old_order[j - 1]));
                } else if i == p {
                    assert(order[j] == old_order[j - 1]);
                } else {
                    assert(order[i] == old_order[i - 1] && order[j] == old_order[j - 1]);
                }
            }
            assert forall|w: usize| w < v + 1 implies order@.contains(w) by {
                if w == v {
                    assert(order@[p as int] == v);
                } else {
                    assert(old_order.contains(w));
                    let q = choose|q: int| 0 <= q < old_order.len() && old_order[q] == w;
                    if q < p {
                        assert(order@[q] == w);
                    } else {
                        assert(order@[q + 1] == w);
                    }
                }
            }
        }
        v = v + 1;
    }
    order
}

// ---------------------------------------------------------------------------
// Breeding plans
// ---------------------------------------------------------------------------

/// One member of the next generation, described by the current individuals
/// (by index) it comes from.
#[derive(Clone, Copy, Debug, PartialEq, Eq, Structural)]
pub enum Offspring {
    /// An unchanged copy.
    Survivor(usize),
    /// The uniform crossover of two parents.
    Crossover(usize, usize),
    /// A mutated copy.
    Mutant(usize),
    /// The mutated uniform crossover of two parents.
    MutatedCrossover(usize, usize),
}

pub open spec fn isqrt_from(n: nat, s: nat) -> nat
    decreases n - s,
{
    if s < n && (s + 1) * (s + 1) <= n {
        isqrt_from(n, s + 1)
    } else {
        s
    }
}

/// The largest `s` with `s * s <= n`.
pub open spec fn integer_sqrt(n: nat) -> nat {
    isqrt_from(n, 0)
}

proof fn lemma_isqrt_from(n: nat, s: nat)
    requires
        s * s <= n,
    ensures
        isqrt_from(n, s) * isqrt_from(n, s) <= n,
        n < (isqrt_from(n, s) + 1) * (isqrt_from(n, s) + 1),
    decreases n - s,
{
    if s < n && (s + 1) * (s + 1) <= n {
        lemma_isqrt_from(n, s + 1);
    } else if s >= n {
        assert((s + 1) * (s + 1) > n) by (nonlinear_arith)
            requires
                s >= n,
        ;
    }
}

/// `integer_sqrt` is the integer square root.
pub proof fn lemma_integer_sqrt(n: nat)
    ensures
        integer_sqrt(n) * integer_sqrt(n) <= n,
        n < (integer_sqrt(n) + 1) * (integer_sqrt(n) + 1),
        n > 0 ==> integer_sqrt(n) >= 1,
        integer_sqrt(n) <= n,
{
    lemma_isqrt_from(n, 0);
    let r = integer_sqrt(n);
    if r == 0 {
        assert((r + 1) * (r + 1) == 1) by (nonlinear_arith)
            requires
                r == 0,
        ;
    }
    if r > n {
        assert(r * r > n) by (nonlinear_arith)
            requires
                r > n,
        ;
    }
}

/// How many individuals survive a generation under the C++-equivalent
/// strategy: the integer square root of the population size.
pub fn survivor_count(n: usize) -> (s: usize)
    ensures
        s == integer_sqrt(n as nat),
{
    let mut s: usize = 0;
    proof {
        lemma_isqrt_from(n as nat, 0);
    }
    while s < n && s + 1 <= n / (s + 1)
        invariant
            s <= n,
            s * s <= n,
            isqrt_from(n as nat, s as nat) == integer_sqrt(n as nat),
        decreases n - s,
    {
        proof {
            let ni = n as int;
            let m = s as int + 1;
            let d = ni / m;
            vstd::arithmetic::div_mod::lemma_fundamental_div_mod(ni, m);
            assert(m * m <= ni) by (nonlinear_arith)
                requires
                    m <= d,
                    ni == m * d + ni % m,
                    ni % m >= 0,
                    m > 0,
            ;
        }
        s = s + 1;
    }
    proof {
        if s < n {
            let ni = n as int;
            let m = s as int + 1;
            vstd::arithmetic::div_mod::lemma_fundamental_div_mod(ni, m);
            assert(m * m > ni) by (nonlinear_arith)
                requires
                    m > ni / m,
                    ni == m * (ni / m) + ni % m,
                    ni % m < m,
            ;
        }
    }
    s
}

/// The pairs `(i, j)` with `i < j < s` in row `i`, in increasing `j`.
pub open spec fn pair_row(i: nat, s: nat) -> Seq<(nat, nat)> {
    Seq::new((s - i - 1) as nat, |t: int| (i, (i + 1 + t) as nat))
}

/// The pairs of rows `i..s`, row by row.
pub open spec fn pairs_from(i: nat, s: nat) -> Seq<(nat, nat)>
    decreases s - i,
{
    if i >= s {
        Seq::empty()
    } else {
        pair_row(i, s) + pairs_from(i + 1, s)
    }
}

/// The pairs of rows `0..i`, row by row.
pub open spec fn pairs_upto(i: nat, s: nat) -> Seq<(nat, nat)>
    decreases i,
{
    if i == 0 {
        Seq::empty()
    } else {
        pairs_upto((i - 1) as nat, s) + pair_row((i - 1) as nat, s)
    }
}

/// Every pair `(i, j)` with `i < j < s`, in lexicographic order.
pub open spec fn pair_order(s: nat) -> Seq<(nat, nat)> {
    pairs_from(0, s)
}

proof fn lemma_pairs_split(i: nat, s: nat)
    requires
        i <= s,
    ensures
        pairs_upto(i, s) + pairs_from(i, s) == pair_order(s),
    decreases i,
{
    if i > 0 {
        lemma_pairs_split((i - 1) as nat, s);
        assert(pairs_from((i - 1) as nat, s) == pair_row((i - 1) as nat, s) + pairs_from(i, s));
        assert(pairs_upto(i, s) + pairs_from(i, s) =~= pairs_upto((i - 1) as nat, s) + pairs_from(
            (i - 1) as nat,
            s,
        ));
    } else {
        assert(pairs_upto(0, s) + pairs_from(0, s) =~= pairs_from(0, s));
    }
}

pub open spec fn min_nat(a: nat, b: nat) -> nat {
    if a <= b {
        a
    } else {
        b
    }
}

/// The next generation under the C++-equivalent strategy, for a population of
/// `n` ranked by `order`: the `s = integer_sqrt(n)` best survive unchanged;
/// then come crossovers of the pairs of survivors in lexicographic order of
/// their ranks, as many as fit; the remaining places go to mutated copies of
/// the survivors, cycling through them from the best.
pub open spec fn cpp_plan(order: Seq<usize>, n: nat) -> Seq<Offspring> {
    let s = integer_sqrt(n);
    let pairs = pair_order(s);
    let crossings = min_nat(pairs.len(), (n - s) as nat);
    let mutants = (n - s - crossings) as nat;
    Seq::new(s, |i: int| Offspring::Survivor(order[i])) + Seq::new(
        crossings,
        |k: int| Offspring::Crossover(order[pairs[k].0 as int], order[pairs[k].1 as int]),
    ) + Seq::new(mutants, |t: int| Offspring::Mutant(order[t % (s as int)]))
}

/// Breeding plan of the C++-equivalent strategy (see [`cpp_plan`]).
pub fn cpp_equivalent_plan(order: &Vec<usize>, n: usize) -> (plan: Vec<Offspring>)
    requires
        order.len() == n,
    ensures
        plan@ == cpp_plan(order@, n as nat),
        plan.len() == n,
{
    let s = survivor_count(n);
    proof {
        lemma_integer_sqrt(n as nat);
    }
    let ghost pairs = pair_order(s as nat);
    let mut plan: Vec<Offspring> = Vec::new();
    let mut i: usize = 0;
    while i < s
        invariant
            i <= s <= n,
            order.len() == n,
            plan@ == Seq::new(i as nat, |q: int| Offspring::Survivor(order@[q])),
        decreases s - i,
    {
        plan.push(Offspring::Survivor(order[i]));
        i = i + 1;
        assert(plan@ =~= Seq::new(i as nat, |q: int| Offspring::Survivor(order@[q])));
    }
    let ghost survivors = plan@;
    let mut count: usize = s;
    let mut a: usize = 0;
    proof {
        lemma_pairs_split(0, s as nat);
    }
    assert(plan@ =~= survivors + pairs.take(0).map_values(
        |p: (nat, nat)| Offspring::Crossover(order@[p.0 as int], order@[p.1 as int]),
    ));
    while a < s && count < n
        invariant
            a <= s <= n,
            s <= count <= n,
            order.len() == n,
            s == integer_sqrt(n as nat),
            pairs == pair_order(s as nat),
            count < n ==> count - s == pairs_upto(a as nat, s as nat).len(),
            count - s <= pairs.len(),
            plan@ == survivors + pairs.take(count - s).map_values(
                |p: (nat, nat)| Offspring::Crossover(order@[p.0 as int], order@[p.1 as int]),
            ),
        decreases s - a,
    {
        proof {
            lemma_pairs_split(a as nat, s as nat);
            lemma_pairs_split((a + 1) as nat, s as nat);
        }
        let ghost base = pairs_upto(a as nat, s as nat).len();
        let mut b: usize = a + 1;
        while b < s && count < n
            invariant
                a < s <= n,
                a + 1 <= b <= s,
                s <= count <= n,
                order.len() == n,
                pairs == pair_order(s as nat),
                base == pairs_upto(a as nat, s as nat).len(),
                pairs == pairs_upto(a as nat, s as nat) + pairs_from(a as nat, s as nat),
                pairs_from(a as nat, s as nat) == pair_row(a as nat, s as nat) + pairs_from(
                    (a + 1) as nat,
                    s as nat,
                ),
                count - s == base + (b - a - 1),
                plan@ == survivors + pairs.take(count - s).map_values(
                    |p: (nat, nat)| Offspring::Crossover(order@[p.0 as int], order@[p.1 as int]),
                ),
            decreases s - b,
        {
            let ghost k: int = count - s;
            assert(pairs[k] == (a as nat, b as nat)) by {
                assert(pairs[k] == pair_row(a as nat, s as nat)[(b - a - 1) as int]);
            }
            plan.push(Offspring::Crossover(order[a], order[b]));
            count = count + 1;
            b = b + 1;
            assert(pairs.take(count - s) =~= pairs.take(k).push(pairs[k]));
            assert(plan@ =~= survivors + pairs.take(count - s).map_values(
                |p: (nat, nat)| Offspring::Crossover(order@[p.0 as int], order@[p.1 as int]),
            ));
        }
        if b == s {
            assert(pairs_upto((a + 1) as nat, s as nat) == pairs_upto(a as nat, s as nat) + pair_row(
                a as nat,
                s as nat,
            ));
        }
        a = a + 1;
    }
    let ghost crossings = count - s;
    proof {
        if count < n {
            assert(a == s);
            lemma_pairs_split(s as nat, s as nat);
            assert(pairs_upto(s as nat, s as nat) =~= pairs);
        }
        assert(crossings == min_nat(pairs.len(), (n - s) as nat));
    }
    let ghost crossed = plan@;
    let mut r: usize = 0;
    if s > 0 {
        assert(0int % (s as int) == 0) by {
            vstd::arithmetic::div_mod::lemma_small_mod(0, s as nat);
        }
    }
    while count < n
        invariant
            s <= count <= n,
            s == integer_sqrt(n as nat),
            n > 0 ==> s >= 1,
            r < s || s == 0,
            order.len() == n,
            crossings == min_nat(pairs.len(), (n - s) as nat),
            count - s - crossings >= 0,
            s > 0 ==> r as int == (count - s - crossings) % (s as int),
            plan@ == crossed + Seq::new(
                (count - s - crossings) as nat,
                |t: int| Offspring::Mutant(order@[t % (s as int)]),
            ),
        decreases n - count,
    {
        let ghost t: int = count - s - crossings;
        plan.push(Offspring::Mutant(order[r]));
        r = if r + 1 == s { 0 } else { r + 1 };
        count = count + 1;
        proof {
            let q = t / (s as int);
            vstd::arithmetic::div_mod::lemma_fundamental_div_mod(t, s as int);
            if (t % (s as int)) + 1 == s {
                assert(t + 1 == (q + 1) * (s as int) + 0) by (nonlinear_arith)
                    requires
                        t == (s as int) * q + t % (s as int),
                        t % (s as int) + 1 == s,
                ;
                vstd::arithmetic::div_mod::lemma_fundamental_div_mod_converse(t + 1, s as int, q + 1, 0);
            } else {
                assert(t + 1 == q * (s as int) + (t % (s as int) + 1)) by (nonlinear_arith)
                    requires
                        t == (s as int) * q + t % (s as int),
                ;
                vstd::arithmetic::div_mod::lemma_fundamental_div_mod_converse(
                    t + 1,
                    s as int,
                    q,
                    t % (s as int) + 1,
                );
            }
        }
        assert(plan@ =~= crossed + Seq::new(
            (count - s - crossings) as nat,
            |t: int| Offspring::Mutant(order@[t % (s as int)]),
        ));
    }
    assert(plan@ =~= cpp_plan(order@, n as nat));
    plan
}

/// The next generation under the elite-crossover strategy: the `e` best
/// survive unchanged; each remaining place goes to the mutated crossover of
/// two elites, the `k`-th child's parents being the elites ranked
/// `parents[k].0` and `parents[k].1`.
pub open spec fn elite_plan(order: Seq<usize>, n: nat, e: nat, parents: Seq<(usize, usize)>) -> Seq<
    Offspring,
> {
    Seq::new(e, |i: int| Offspring::Survivor(order[i])) + Seq::new(
        (n - e) as nat,
        |k: int| Offspring::MutatedCrossover(order[parents[k].0 as int], order[parents[k].1 as int]),
    )
}

/// Breeding plan of the elite-crossover strategy for given parent choices
/// (see [`elite_plan`]).
pub fn elite_crossover_plan_with(
    order: &Vec<usize>,
    n: usize,
    e: usize,
    parents: &Vec<(usize, usize)>,
) -> (plan: Vec<Offspring>)
    requires
        order.len() == n,
        e <= n,
        parents.len() == n - e,
        forall|k: int| 0 <= k < parents.len() ==> (#[trigger] parents[k]).0 < e && parents[k].1 < e,
    ensures
        plan@ == elite_plan(order@, n as nat, e as nat, parents@),
        plan.len() == n,
{
    let mut plan: Vec<Offspring> = Vec::new();
    let mut i: usize = 0;
    while i < e
        invariant
            i <= e <= n,
            order.len() == n,
            plan@ == Seq::new(i as nat, |q: int| Offspring::Survivor(order@[q])),
        decreases e - i,
    {
        plan.push(Offspring::Survivor(order[i]));
        i = i + 1;
        assert(plan@ =~= Seq::new(i as nat, |q: int| Offspring::Survivor(order@[q])));
    }
    let ghost survivors = plan@;
    let mut k: usize = 0;
    while k < n - e
        invariant
            e <= n,
            k <= n - e,
            order.len() == n,
            parents.len() == n - e,
            forall|k: int| 0 <= k < parents.len() ==> (#[trigger] parents[k]).0 < e && parents[k].1 < e,
            plan@ == survivors + Seq::new(
                k as nat,
                |q: int|
                    Offspring::MutatedCrossover(
                        order@[parents@[q].0 as int],
                        order@[parents@[q].1 as int],
                    ),
            ),
        decreases n - e - k,
    {
        let (a, b) = parents[k];
        plan.push(Offspring::MutatedCrossover(order[a], order[b]));
        k = k + 1;
        assert(plan@ =~= survivors + Seq::new(
            k as nat,
            |q: int|
                Offspring::MutatedCrossover(order@[parents@[q].0 as int], order@[parents@[q].1 as int]),
        ));
    }
    plan
}

/// `count` pairs of elite ranks, each drawn uniformly from `0..e`.
pub fn random_parent_pairs(count: usize, e: usize) -> (parents: Vec<(usize, usize)>)
    requires
        e > 0 || count == 0,
    ensures
        parents.len() == count,
        forall|k: int| 0 <= k < parents.len() ==> (#[trigger] parents[k]).0 < e && parents[k].1 < e,
{
    let mut parents: Vec<(usize, usize)> = Vec::new();
    while parents.len() < count
        invariant
            parents.len() <= count,
            e > 0 || count == 0,
            forall|k: int| 0 <= k < parents.len() ==> (#[trigger] parents[k]).0 < e && parents[k].1 < e,
        decreases count - parents.len(),
    {
        let a = random_index(e);
        let b = random_index(e);
        parents.push((a, b));
    }
    parents
}

/// Breeding plan of the elite-crossover strategy with randomly drawn parents:
/// the `e` best survive, every other place is the mutated crossover of two
/// elites drawn at random.
pub fn elite_crossover_plan(order: &Vec<usize>, n: usize, e: usize) -> (plan: Vec<Offspring>)
    requires
        order.len() == n,
        e <= n,
        e > 0 || e == n,
    ensures
        exists|parents: Seq<(usize, usize)>|
            parents.len() == n - e && (forall|k: int|
                0 <= k < parents.len() ==> (#[trigger] parents[k]).0 < e && parents[k].1 < e)
                && plan@ == elite_plan(order@, n as nat, e as nat, parents),
        plan.len() == n,
{
    let parents = random_parent_pairs(n - e, e);
    elite_crossover_plan_with(order, n, e, &parents)
}

/// The breeding plan for the next generation of a population of `n`
/// ranked by `order`, under the given strategy.
pub fn recombination_plan(strategy: ReproductionStrategy, order: &Vec<usize>, n: usize, elite_count: usize) -> (plan: Vec<Offspring>)
    requires
        order.len() == n,
        strategy == ReproductionStrategy::EliteCrossover ==> elite_count <= n && (elite_count > 0
            || elite_count == n),
    ensures
        plan.len() == n,
        strategy == ReproductionStrategy::CppEquivalent ==> plan@ == cpp_plan(order@, n as nat),
        strategy == ReproductionStrategy::EliteCrossover ==> exists|parents: Seq<(usize, usize)>|
            parents.len() == n - elite_count && (forall|k: int|
                0 <= k < parents.len() ==> (#[trigger] parents[k]).0 < elite_count && parents[k].1
                    < elite_count) && plan@ == elite_plan(
                order@,
                n as nat,
                elite_count as nat,
                parents,
            ),
{
    match strategy {
        ReproductionStrategy::CppEquivalent => cpp_equivalent_plan(order, n),
        ReproductionStrategy::EliteCrossover => elite_crossover_plan(order, n, elite_count),
    }
}

/// Where every member of a plan comes from.
pub open spec fn descends_from(o: Offspring, parents: Set<usize>) -> bool {
    match o {
        Offspring::Survivor(a) => parents.contains(a),
        Offspring::Mutant(a) => parents.contains(a),
        Offspring::Crossover(a, b) => parents.contains(a) && parents.contains(b),
        Offspring::MutatedCrossover(a, b) => parents.contains(a) && parents.contains(b),
    }
}

/// The first `m` individuals of a ranking.
pub open spec fn top(order: Seq<usize>, m: nat) -> Set<usize> {
    Set::new(|a: usize| exists|r: int| 0 <= r < m && #[trigger] order[r] == a)
}

proof fn lemma_pair_order_bounds(s: nat)
    ensures
        forall|k: int|
            0 <= k < pair_order(s).len() ==> (#[trigger] pair_order(s)[k]).0 < pair_order(s)[k].1 < s,
{
    lemma_pairs_from_bounds(0, s);
}

proof fn lemma_pairs_from_bounds(i: nat, s: nat)
    ensures
        forall|k: int|
            0 <= k < pairs_from(i, s).len() ==> i <= (#[trigger] pairs_from(i, s)[k]).0 < pairs_from(
                i,
                s,
            )[k].1 < s,
    decreases s - i,
{
    if i < s {
        lemma_pairs_from_bounds(i + 1, s);
        let row = pair_row(i, s);
        let rest = pairs_from(i + 1, s);
        assert forall|k: int| 0 <= k < pairs_from(i, s).len() implies i <= (
        #[trigger] pairs_from(i, s)[k]).0 < pairs_from(i, s)[k].1 < s by {
            if k < row.len() {
                assert(pairs_from(i, s)[k] == row[k]);
            } else {
                assert(pairs_from(i, s)[k] == rest[k - row.len()]);
            }
        }
    }
}

/// The C++-equivalent plan keeps the population size, carries the
/// `integer_sqrt(n)` best over unchanged at the front, and breeds every other
/// member from those survivors only.
pub proof fn lemma_cpp_plan_shape(order: Seq<usize>, n: nat)
    requires
        order.len() == n,
    ensures
        cpp_plan(order, n).len() == n,
        forall|i: int|
            0 <= i < integer_sqrt(n) ==> #[trigger] cpp_plan(order, n)[i] == Offspring::Survivor(
                order[i],
            ),
        forall|k: int|
            0 <= k < n ==> descends_from(#[trigger] cpp_plan(order, n)[k], top(order, integer_sqrt(n))),
{
    lemma_integer_sqrt(n);
    lemma_pair_order_bounds(integer_sqrt(n));
    let s = integer_sqrt(n);
    let pairs = pair_order(s);
    let crossings = min_nat(pairs.len(), (n - s) as nat);
    let plan = cpp_plan(order, n);
    assert forall|k: int| 0 <= k < n implies descends_from(#[trigger] plan[k], top(order, s)) by {
        if k < s {
            assert(top(order, s).contains(order[k]));
        } else if k < s + crossings {
            let p = pairs[k - s];
            assert(top(order, s).contains(order[p.0 as int]));
            assert(top(order, s).contains(order[p.1 as int]));
        } else {
            let t = k - s - crossings;
            vstd::arithmetic::div_mod::lemma_mod_bound(t, s as int);
            assert(top(order, s).contains(order[t % (s as int)]));
        }
    }
}

/// The elite-crossover plan keeps the population size, carries the `e`
/// elites over unchanged at the front, and breeds every other member from
/// the elites only.
pub proof fn lemma_elite_plan_shape(order: Seq<usize>, n: nat, e: nat, parents: Seq<(usize, usize)>)
    requires
        order.len() == n,
        e <= n,
        parents.len() == n - e,
        forall|k: int| 0 <= k < parents.len() ==> (#[trigger] parents[k]).0 < e && parents[k].1 < e,
    ensures
        elite_plan(order, n, e, parents).len() == n,
        forall|i: int|
            0 <= i < e ==> #[trigger] elite_plan(order, n, e, parents)[i] == Offspring::Survivor(order[i]),
        forall|k: int|
            0 <= k < n ==> descends_from(#[trigger] elite_plan(order, n, e, parents)[k], top(order, e)),
{
    let plan = elite_plan(order, n, e, parents);
    assert forall|k: int| 0 <= k < n implies descends_from(#[trigger] plan[k], top(order, e)) by {
        if k < e {
            assert(top(order, e).contains(order[k]));
        } else {
            let p = parents[k - e];
            assert(top(order, e).contains(order[p.0 as int]));
            assert(top(order, e).contains(order[p.1 as int]));
        }
    }
}

/// The fittest individual comes first in the ranking: no individual has
/// higher fitness.
pub proof fn lemma_ranking_best_first(fitness: Seq<u64>, order: Seq<usize>)
    requires
        is_ranking(fitness, order),
        fitness.len() > 0,
        forall|v: usize| v < fitness.len() ==> order.contains(v),
    ensures
        forall|v: usize| v < fitness.len() ==> #[trigger] fitness[v as int] <= fitness[order[0] as int],
        forall|v: usize|
            v < fitness.len() ==> fitness[order[order.len() - 1] as int] <= #[trigger] fitness[v as int],
{
    assert forall|v: usize| v < fitness.len() implies #[trigger] fitness[v as int] <= fitness[order[0] as int] by {
        assert(order.contains(v));
        let q = choose|q: int| 0 <= q < order.len() && order[q] == v;
        if q > 0 {
            assert(ranks_ahead(fitness, order[0], order[q]));
        }
    }
    assert forall|v: usize| v < fitness.len() implies fitness[order[order.len() - 1] as int]
        <= #[trigger] fitness[v as int] by {
        assert(order.contains(v));
        let q = choose|q: int| 0 <= q < order.len() && order[q] == v;
        if q < order.len() - 1 {
            assert(ranks_ahead(fitness, order[q], order[order.len() - 1]));
        }
    }
}

proof fn lemma_rankings_agree_upto(fitness: Seq<u64>, a: Seq<usize>, b: Seq<usize>, i: int)
    requires
        is_ranking(fitness, a),
        is_ranking(fitness, b),
        forall|v: usize| v < fitness.len() ==> a.contains(v),
        forall|v: usize| v < fitness.len() ==> b.contains(v),
        0 <= i <= a.len(),
    ensures
        forall|k: int| 0 <= k < i ==> #[trigger] a[k] == b[k],
    decreases i,
{
    if i > 0 {
        let m = i - 1;
        lemma_rankings_agree_upto(fitness, a, b, m);
        if a[m] != b[m] {
            let x = a[m];
            let y = b[m];
            assert(b.contains(x));
            let q = choose|q: int| 0 <= q < b.len() && b[q] == x;
            assert(a.contains(y));
            let p = choose|p: int| 0 <= p < a.len() && a[p] == y;
            if q < m {
                assert(a[q] == b[q]);
                assert(ranks_ahead(fitness, a[q], a[m]));
            }
            if p < m {
                assert(b[p] == a[p]);
                assert(ranks_ahead(fitness, b[p], b[m]));
            }
            assert(q > m && p > m);
            assert(ranks_ahead(fitness, a[m], a[p]));
            assert(ranks_ahead(fitness, b[m], b[q]));
        }
    }
}

/// A population has exactly one ranking: two orders that both list every
/// individual best first are the same order.
pub proof fn lemma_ranking_unique(fitness: Seq<u64>, a: Seq<usize>, b: Seq<usize>)
    requires
        is_ranking(fitness, a),
        is_ranking(fitness, b),
        forall|v: usize| v < fitness.len() ==> a.contains(v),
        forall|v: usize| v < fitness.len() ==> b.contains(v),
    ensures
        a == b,
{
    lemma_rankings_agree_upto(fitness, a, b, a.len() as int);
    assert(a =~= b);
}

// ---------------------------------------------------------------------------
// Generation summary
// ---------------------------------------------------------------------------

/// Sum of the primary scores of the first `m` fitness numbers.
pub open spec fn primary_total(fitness: Seq<u64>, m: int) -> int
    decreases m,
{
    if m <= 0 {
        0
    } else {
        primary_total(fitness, m - 1) + fitness[m - 1] as int / two_pow_32()
    }
}

/// The best and worst primary scores of a ranked generation and the sum of
/// all primary scores (from which the average is taken).
pub fn generation_summary(fitness: &Vec<u64>, order: &Vec<usize>) -> (r: (u32, u32, u32))
    requires
        fitness.len() > 0,
        is_ranking(fitness@, order@),
        primary_total(fitness@, fitness.len() as int) <= u32::MAX,
    ensures
        r.0 as int == fitness[order[0] as int] as int / two_pow_32(),
        r.1 as int == fitness[order[order.len() - 1] as int] as int / two_pow_32(),
        r.2 as int == primary_total(fitness@, fitness.len() as int),
{
    let best = primary_score(fitness[order[0]]);
    let worst = primary_score(fitness[order[order.len() - 1]]);
    let mut total: u32 = 0;
    let mut k: usize = 0;
    proof {
        lemma_primary_total_monotone(fitness@, fitness.len() as int);
    }
    while k < fitness.len()
        invariant
            k <= fitness.len(),
            total as int == primary_total(fitness@, k as int),
            forall|m: int|
                0 <= m <= fitness.len() ==> #[trigger] primary_total(fitness@, m) <= primary_total(
                    fitness@,
                    fitness.len() as int,
                ),
            primary_total(fitness@, fitness.len() as int) <= u32::MAX,
        decreases fitness.len() - k,
    {
        let p = primary_score(fitness[k]);
        assert(primary_total(fitness@, k + 1) <= u32::MAX);
        total = total + p;
        k = k + 1;
    }
    (best, worst, total)
}

proof fn lemma_primary_total_monotone(fitness: Seq<u64>, m: int)
    ensures
        forall|a: int| 0 <= a <= m ==> #[trigger] primary_total(fitness, a) <= primary_total(fitness, m),
    decreases m,
{
    if m > 0 {
        lemma_primary_total_monotone(fitness, m - 1);
        assert(fitness[m - 1] as int / two_pow_32() >= 0);
    }
}

} // verus!
