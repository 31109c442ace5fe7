use pong_evo::evolution::{breeding_plan_with, next_generation_plan, rank_by_plays_then_wins, round_robin_fitness, GameRecord};
use pong_evo::population::Offspring;

fn rec(score: (u8, u8), returns: (u16, u16), shots: (u16, u16)) -> GameRecord {
    GameRecord { score, returns, shots }
}

#[test]
fn round_robin_counts_plays_and_wins() {
    let unused = rec((9, 9), (999, 999), (999, 999));
    let games = vec![
        vec![unused, rec((1, 0), (2, 3), (1, 0)), rec((0, 0), (1, 1), (0, 2))],
        vec![unused, unused, rec((0, 1), (4, 0), (0, 0))],
        vec![unused, unused, unused],
    ];
    let f = round_robin_fitness(&games);
    assert_eq!(f, vec![(4, 1), (7, 0), (3, 2)]);
    assert_eq!(f.iter().map(|x| x.1).sum::<i32>(), 3);
    assert_eq!(rank_by_plays_then_wins(&f), vec![1, 0, 2]);
}

#[test]
fn ranking_uses_wins_between_equal_plays() {
    let order = rank_by_plays_then_wins(&vec![(5, 0), (5, 2), (9, 0)]);
    assert_eq!(order, vec![2, 1, 0]);
    assert!(rank_by_plays_then_wins(&vec![]).is_empty());
}

#[test]
fn breeding_plan_with_picks() {
    let plan = breeding_plan_with(&vec![1, 0, 2, 3, 4], 5, 2, &vec![1, 0]);
    assert_eq!(plan, vec![Offspring::Survivor(1), Offspring::Survivor(0), Offspring::Crossover(1, 0), Offspring::Mutant(0), Offspring::Mutant(1)]);
    let crowded = breeding_plan_with(&vec![4, 3, 2, 1, 0], 5, 3, &vec![]);
    assert_eq!(crowded, vec![Offspring::Survivor(4), Offspring::Survivor(3), Offspring::Survivor(2), Offspring::Crossover(4, 3), Offspring::Crossover(4, 2)]);
}

#[test]
fn next_generation_plan_shape() {
    let order: Vec<usize> = vec![6, 5, 4, 3, 2, 1, 0];
    let plan = next_generation_plan(&order, 7, 2);
    assert_eq!(plan.len(), 7);
    assert_eq!(&plan[..3], &[Offspring::Survivor(6), Offspring::Survivor(5), Offspring::Crossover(6, 5)]);
    assert!(plan[3..].iter().all(|c| *c == Offspring::Mutant(6) || *c == Offspring::Mutant(5)));
}

#[test]
fn every_game_awards_one_win() {
    let level = rec((0, 0), (1, 1), (0, 0));
    let n = 5;
    let games: Vec<Vec<GameRecord>> = (0..n).map(|_| vec![level; n]).collect();
    let f = round_robin_fitness(&games);
    assert_eq!(f.iter().map(|x| x.1).sum::<i32>(), 10);
    assert_eq!(f.iter().map(|x| x.1).collect::<Vec<_>>(), vec![0, 1, 2, 3, 4]);
    assert_eq!(f.iter().map(|x| x.0).collect::<Vec<_>>(), vec![4, 4, 4, 4, 4]);
}
