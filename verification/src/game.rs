//! The discrete bookkeeping of a game of Pong between two networks: when the
//! game ends and how its tallies turn into fitness.
use crate::config::FitnessFunc;
use crate::constants::{MAX_SCORE, WIDTH};
use vstd::prelude::*;

verus! {

/// Most ticks a game may last before it is cut off.
pub const SIMULATION_TICK_LIMIT: u32 = 12800;

/// The tick limit is twice sixteen crossings of the field per point to be
/// scored.
pub proof fn lemma_tick_limit()
    ensures
        SIMULATION_TICK_LIMIT == 2 * 16 * (MAX_SCORE as u32) * (WIDTH as u32),
{
    let m = MAX_SCORE as u32;
    let w = WIDTH as u32;
    assert(2 * 16 * m * w == 12800) by (nonlinear_arith)
        requires
            m == 1,
            w == 400,
    ;
}

/// The tallies of a finished game: scores, returns (the ball struck back by
/// a paddle) and shots (the ball sent on a course that the other paddle would
/// not reach), each as `(left, right)`.
#[derive(Clone, Copy, Debug)]
pub struct GameTally {
    pub scores: (u8, u8),
    pub returns: (u32, u32),
    pub shots: (u32, u32),
}

/// A game ends once either player reaches the winning score.
pub open spec fn is_over(scores: (u8, u8)) -> bool {
    scores.0 >= MAX_SCORE || scores.1 >= MAX_SCORE
}

/// Whether the simulation goes on for another tick: the game is not over and
/// `tick` (counted from zero) is within the limit.
pub fn game_continues(tick: u32, scores: (u8, u8)) -> (b: bool)
    ensures
        b == (tick < SIMULATION_TICK_LIMIT && !is_over(scores)),
{
    tick < SIMULATION_TICK_LIMIT && !(scores.0 >= MAX_SCORE || scores.1 >= MAX_SCORE)
}

/// The fitness `((left primary, left secondary), (right primary, right
/// secondary))` that a finished game gives to each player.
pub open spec fn fitness_of(func: FitnessFunc, t: GameTally) -> ((int, int), (int, int)) {
    match func {
        FitnessFunc::CppEquivalent => (
            (
                t.returns.0 + t.shots.0,
                if t.scores.0 > t.scores.1 {
                    1int
                } else {
                    0int
                },
            ),
            (
                t.returns.1 + t.shots.1,
                if t.scores.1 > t.scores.0 {
                    1int
                } else {
                    0int
                },
            ),
        ),
        FitnessFunc::ReturnFocused => (
            (t.returns.0 + if t.scores.0 > t.scores.1 {
                5int
            } else {
                0int
            }, 0),
            (t.returns.1 + if t.scores.1 > t.scores.0 {
                5int
            } else {
                0int
            }, 0),
        ),
        FitnessFunc::VictoryOptimized => (
            (t.returns.0 + if t.scores.0 >= MAX_SCORE {
                10int
            } else {
                0int
            }, 0),
            (t.returns.1 + if t.scores.1 >= MAX_SCORE {
                10int
            } else {
                0int
            }, 0),
        ),
    }
}

/// The fitness values of a game fit in 32 bits.
pub open spec fn fitness_fits(func: FitnessFunc, t: GameTally) -> bool {
    let f = fitness_of(func, t);
    f.0.0 <= u32::MAX && f.1.0 <= u32::MAX
}

/// The fitness that a finished game gives to each player under `func`:
/// returns plus shots with wins as the second score; returns plus 5 for the
/// winner; or returns plus 10 for each player at the winning score.
pub fn game_fitness(func: FitnessFunc, t: GameTally) -> (r: ((u32, u32), (u32, u32)))
    requires
        fitness_fits(func, t),
    ensures
        r.0.0 == fitness_of(func, t).0.0,
        r.0.1 == fitness_of(func, t).0.1,
        r.1.0 == fitness_of(func, t).1.0,
        r.1.1 == fitness_of(func, t).1.1,
{
    match func {
        FitnessFunc::CppEquivalent => {
            let left_wins: u32 = if t.scores.0 > t.scores.1 { 1 } else { 0 };
            let right_wins: u32 = if t.scores.1 > t.scores.0 { 1 } else { 0 };
            let left_primary = t.returns.0 + t.shots.0;
            let right_primary = t.returns.1 + t.shots.1;
            ((left_primary, left_wins), (right_primary, right_wins))
        },
        FitnessFunc::ReturnFocused => {
            let mut left_score = t.returns.0;
            let mut right_score = t.returns.1;
            if t.scores.0 > t.scores.1 {
                left_score = left_score + 5;
            } else if t.scores.1 > t.scores.0 {
                right_score = right_score + 5;
            }
            ((left_score, 0), (right_score, 0))
        },
        FitnessFunc::VictoryOptimized => {
            let mut left_score = t.returns.0;
            let mut right_score = t.returns.1;
            if t.scores.0 >= MAX_SCORE {
                left_score = left_score + 10;
            }
            if t.scores.1 >= MAX_SCORE {
                right_score = right_score + 10;
            }
            ((left_score, 0), (right_score, 0))
        },
    }
}

/// The fitness that a finished game gives to each player under `func` (see
/// [`game_fitness`]), or `None` when a value would not fit in 32 bits.
pub fn checked_game_fitness(func: FitnessFunc, t: GameTally) -> (r: Option<((u32, u32), (u32, u32))>)
    ensures
        r is Some <==> fitness_fits(func, t),
        r matches Some(v) ==> {
            &&& v.0.0 == fitness_of(func, t).0.0
            &&& v.0.1 == fitness_of(func, t).0.1
            &&& v.1.0 == fitness_of(func, t).1.0
            &&& v.1.1 == fitness_of(func, t).1.1
        },
{
    let (left, right): (u64, u64) = match func {
        FitnessFunc::CppEquivalent => (
            t.returns.0 as u64 + t.shots.0 as u64,
            t.returns.1 as u64 + t.shots.1 as u64,
        ),
        FitnessFunc::ReturnFocused => (
            t.returns.0 as u64 + if t.scores.0 > t.scores.1 { 5u64 } else { 0u64 },
            t.returns.1 as u64 + if t.scores.1 > t.scores.0 { 5u64 } else { 0u64 },
        ),
        FitnessFunc::VictoryOptimized => (
            t.returns.0 as u64 + if t.scores.0 >= MAX_SCORE { 10u64 } else { 0u64 },
            t.returns.1 as u64 + if t.scores.1 >= MAX_SCORE { 10u64 } else { 0u64 },
        ),
    };
    if left <= u32::MAX as u64 && right <= u32::MAX as u64 {
        Some(game_fitness(func, t))
    } else {
        None
    }
}

/// Fitness is symmetric: swapping the players' tallies swaps their fitness.
pub proof fn lemma_fitness_symmetric(func: FitnessFunc, t: GameTally)
    ensures
        ({
            let m = GameTally {
                scores: (t.scores.1, t.scores.0),
                returns: (t.returns.1, t.returns.0),
                shots: (t.shots.1, t.shots.0),
            };
            fitness_of(func, m) == (fitness_of(func, t).1, fitness_of(func, t).0)
        }),
{
}

/// Under the C++-equivalent fitness a player's primary score is its returns
/// plus its shots, however the game ended (won, lost, or cut off level at the
/// tick limit), and the secondary score is 1 exactly for the player that
/// scored more. Under the return-focused fitness the player that scored more
/// gets its returns plus 5 and the other its returns; under the
/// victory-optimized fitness a player gets its returns, plus 10 once it
/// reached the winning score. Neither of the last two has a secondary score.
pub proof fn lemma_fitness_formulas(t: GameTally)
    ensures
        fitness_of(FitnessFunc::CppEquivalent, t).0.0 == t.returns.0 + t.shots.0,
        fitness_of(FitnessFunc::CppEquivalent, t).1.0 == t.returns.1 + t.shots.1,
        fitness_of(FitnessFunc::CppEquivalent, t).0.1 == 1 <==> t.scores.0 > t.scores.1,
        fitness_of(FitnessFunc::CppEquivalent, t).1.1 == 1 <==> t.scores.1 > t.scores.0,
        0 <= fitness_of(FitnessFunc::CppEquivalent, t).0.1 <= 1,
        0 <= fitness_of(FitnessFunc::CppEquivalent, t).1.1 <= 1,
        fitness_of(FitnessFunc::ReturnFocused, t).0.0 - t.returns.0 == (if t.scores.0 > t.scores.1 {
            5int
        } else {
            0int
        }),
        fitness_of(FitnessFunc::ReturnFocused, t).1.0 - t.returns.1 == (if t.scores.1 > t.scores.0 {
            5int
        } else {
            0int
        }),
        fitness_of(FitnessFunc::VictoryOptimized, t).0.0 - t.returns.0 == (if t.scores.0 >= MAX_SCORE {
            10int
        } else {
            0int
        }),
        fitness_of(FitnessFunc::VictoryOptimized, t).1.0 - t.returns.1 == (if t.scores.1 >= MAX_SCORE {
            10int
        } else {
            0int
        }),
        fitness_of(FitnessFunc::ReturnFocused, t).0.1 == 0,
        fitness_of(FitnessFunc::ReturnFocused, t).1.1 == 0,
        fitness_of(FitnessFunc::VictoryOptimized, t).0.1 == 0,
        fitness_of(FitnessFunc::VictoryOptimized, t).1.1 == 0,
{
}

} // verus!
