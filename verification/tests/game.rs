use pong_evo::config::FitnessFunc;
use pong_evo::game::{checked_game_fitness, game_continues, game_fitness, GameTally, SIMULATION_TICK_LIMIT};

fn tally(scores: (u8, u8), returns: (u32, u32), shots: (u32, u32)) -> GameTally {
    GameTally { scores, returns, shots }
}

#[test]
fn tick_limit_is_two_widths_per_point() {
    assert_eq!(SIMULATION_TICK_LIMIT, 12800);
}

#[test]
fn game_continues_until_score_or_limit() {
    assert!(game_continues(0, (0, 0)));
    assert!(game_continues(SIMULATION_TICK_LIMIT - 1, (0, 0)));
    assert!(!game_continues(SIMULATION_TICK_LIMIT, (0, 0)));
    assert!(!game_continues(5, (1, 0)));
    assert!(!game_continues(5, (0, 1)));
}

#[test]
fn cpp_equivalent_fitness() {
    let r = game_fitness(FitnessFunc::CppEquivalent, tally((1, 0), (4, 2), (3, 1)));
    assert_eq!(r, ((7, 1), (3, 0)));
    let draw = game_fitness(FitnessFunc::CppEquivalent, tally((0, 0), (4, 2), (0, 0)));
    assert_eq!(draw, ((4, 0), (2, 0)));
}

#[test]
fn return_focused_fitness() {
    let r = game_fitness(FitnessFunc::ReturnFocused, tally((0, 1), (4, 2), (3, 1)));
    assert_eq!(r, ((4, 0), (7, 0)));
    let draw = game_fitness(FitnessFunc::ReturnFocused, tally((0, 0), (4, 2), (3, 1)));
    assert_eq!(draw, ((4, 0), (2, 0)));
}

#[test]
fn victory_optimized_fitness() {
    let r = game_fitness(FitnessFunc::VictoryOptimized, tally((1, 0), (4, 2), (3, 1)));
    assert_eq!(r, ((14, 0), (2, 0)));
    let none = game_fitness(FitnessFunc::VictoryOptimized, tally((0, 0), (4, 2), (3, 1)));
    assert_eq!(none, ((4, 0), (2, 0)));
}

#[test]
fn fitness_is_symmetric_on_an_example() {
    for func in [FitnessFunc::CppEquivalent, FitnessFunc::ReturnFocused, FitnessFunc::VictoryOptimized] {
        let a = game_fitness(func, tally((1, 0), (4, 2), (3, 1)));
        let b = game_fitness(func, tally((0, 1), (2, 4), (1, 3)));
        assert_eq!(a, (b.1, b.0));
    }
}

#[test]
fn checked_fitness_refuses_overflow() {
    assert_eq!(
        checked_game_fitness(FitnessFunc::CppEquivalent, tally((1, 0), (4, 2), (3, 1))),
        Some(((7, 1), (3, 0)))
    );
    assert_eq!(checked_game_fitness(FitnessFunc::CppEquivalent, tally((1, 0), (u32::MAX, 0), (1, 0))), None);
    assert_eq!(checked_game_fitness(FitnessFunc::ReturnFocused, tally((1, 0), (u32::MAX, 0), (0, 0))), None);
    assert_eq!(
        checked_game_fitness(FitnessFunc::ReturnFocused, tally((0, 0), (u32::MAX, 0), (9, 9))),
        Some(((u32::MAX, 0), (0, 0)))
    );
    assert_eq!(checked_game_fitness(FitnessFunc::VictoryOptimized, tally((0, 1), (0, u32::MAX - 9), (0, 0))), None);
    assert_eq!(
        checked_game_fitness(FitnessFunc::VictoryOptimized, tally((0, 1), (0, u32::MAX - 10), (0, 0))),
        Some(((0, 0), (u32::MAX, 0)))
    );
}
