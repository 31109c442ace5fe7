use pong_evo::config::ReproductionStrategy;
use pong_evo::population::{
    cpp_equivalent_plan, elite_crossover_plan, elite_crossover_plan_with, generation_summary,
    pack_score, primary_score, recombination_plan, select_elites, survivor_count,
    tournament_fitness_scores, GameScores, Offspring,
};

#[test]
fn pack_score_puts_primary_in_high_half() {
    assert_eq!(pack_score(3, 5), (3u64 << 32) | 5);
    assert_eq!(pack_score(0, 0), 0);
    assert_eq!(pack_score(u32::MAX, u32::MAX), u64::MAX);
    assert_eq!(primary_score(pack_score(3, 5)), 3);
    assert_eq!(primary_score(pack_score(u32::MAX, 0)), u32::MAX);
}

#[test]
fn packing_orders_primary_before_secondary() {
    assert!(pack_score(1, 0) > pack_score(0, u32::MAX));
    assert!(pack_score(2, 3) < pack_score(2, 4));
    assert!(pack_score(2, 3) == pack_score(2, 3));
}

#[test]
fn tournament_fitness_two_players() {
    let results: Vec<Vec<GameScores>> = vec![
        vec![((99, 99), (99, 99)), ((2, 10), (1, 20))],
        vec![((0, 5), (3, 7)), ((99, 99), (99, 99))],
    ];
    let f = tournament_fitness_scores(&results);
    assert_eq!(f, vec![pack_score(2, 10) + pack_score(3, 7), pack_score(1, 20) + pack_score(0, 5)]);
}

#[test]
fn tournament_fitness_three_players() {
    let g = |l: u32, r: u32| -> GameScores { ((l, 0), (r, 1)) };
    let results: Vec<Vec<GameScores>> = vec![
        vec![g(0, 0), g(1, 2), g(3, 4)],
        vec![g(5, 6), g(0, 0), g(7, 8)],
        vec![g(9, 10), g(11, 12), g(0, 0)],
    ];
    let f = tournament_fitness_scores(&results);
    let p = |a: u32, b: u32| pack_score(a, b);
    assert_eq!(f[0], p(1, 0) + p(3, 0) + p(6, 1) + p(10, 1));
    assert_eq!(f[1], p(2, 1) + p(5, 0) + p(7, 0) + p(12, 1));
    assert_eq!(f[2], p(4, 1) + p(8, 1) + p(9, 0) + p(11, 0));
}

#[test]
fn tournament_fitness_wraps() {
    let m = ((u32::MAX, u32::MAX), (u32::MAX, u32::MAX));
    let results: Vec<Vec<GameScores>> = vec![vec![m, m], vec![m, m]];
    let f = tournament_fitness_scores(&results);
    assert_eq!(f, vec![u64::MAX - 1, u64::MAX - 1]);
}

#[test]
fn tournament_fitness_empty_and_single() {
    let empty: Vec<Vec<GameScores>> = vec![];
    assert!(tournament_fitness_scores(&empty).is_empty());
    let single: Vec<Vec<GameScores>> = vec![vec![((4, 4), (4, 4))]];
    assert_eq!(tournament_fitness_scores(&single), vec![0]);
}

#[test]
fn select_elites_breaks_ties_by_higher_index() {
    assert_eq!(select_elites(&vec![5, 9, 5, 1]), vec![1, 2, 0, 3]);
    assert_eq!(select_elites(&vec![7, 7, 7]), vec![2, 1, 0]);
    assert_eq!(select_elites(&vec![]), Vec::<usize>::new());
    assert_eq!(select_elites(&vec![1, 2, 3, 4]), vec![3, 2, 1, 0]);
}

#[test]
fn survivor_count_is_integer_square_root() {
    assert_eq!(survivor_count(0), 0);
    assert_eq!(survivor_count(1), 1);
    assert_eq!(survivor_count(3), 1);
    assert_eq!(survivor_count(4), 2);
    assert_eq!(survivor_count(10), 3);
    assert_eq!(survivor_count(15), 3);
    assert_eq!(survivor_count(16), 4);
    assert_eq!(survivor_count(100), 10);
    assert_eq!(survivor_count(1_000_000), 1000);
}

#[test]
fn cpp_plan_for_ten() {
    let order: Vec<usize> = vec![9, 8, 7, 6, 5, 4, 3, 2, 1, 0];
    let plan = cpp_equivalent_plan(&order, 10);
    assert_eq!(
        plan,
        vec![
            Offspring::Survivor(9),
            Offspring::Survivor(8),
            Offspring::Survivor(7),
            Offspring::Crossover(9, 8),
            Offspring::Crossover(9, 7),
            Offspring::Crossover(8, 7),
            Offspring::Mutant(9),
            Offspring::Mutant(8),
            Offspring::Mutant(7),
            Offspring::Mutant(9),
        ]
    );
}

#[test]
fn cpp_plan_small_populations() {
    assert_eq!(cpp_equivalent_plan(&vec![], 0), vec![]);
    assert_eq!(cpp_equivalent_plan(&vec![4], 1), vec![Offspring::Survivor(4)]);
    assert_eq!(cpp_equivalent_plan(&vec![1, 0], 2), vec![Offspring::Survivor(1), Offspring::Mutant(1)]);
    assert_eq!(
        cpp_equivalent_plan(&vec![2, 0, 3, 1], 4),
        vec![Offspring::Survivor(2), Offspring::Survivor(0), Offspring::Crossover(2, 0), Offspring::Mutant(2)]
    );
}

#[test]
fn cpp_plan_with_more_pairs_than_places() {
    // 16 individuals: 4 survivors, 6 pairs, 12 places left.
    let order: Vec<usize> = (0..16).rev().collect();
    let plan = cpp_equivalent_plan(&order, 16);
    assert_eq!(plan.len(), 16);
    assert_eq!(&plan[..4], &[Offspring::Survivor(15), Offspring::Survivor(14), Offspring::Survivor(13), Offspring::Survivor(12)]);
    assert_eq!(
        &plan[4..10],
        &[
            Offspring::Crossover(15, 14),
            Offspring::Crossover(15, 13),
            Offspring::Crossover(15, 12),
            Offspring::Crossover(14, 13),
            Offspring::Crossover(14, 12),
            Offspring::Crossover(13, 12)
        ]
    );
    assert_eq!(
        &plan[10..],
        &[Offspring::Mutant(15), Offspring::Mutant(14), Offspring::Mutant(13), Offspring::Mutant(12), Offspring::Mutant(15), Offspring::Mutant(14)]
    );
}

#[test]
fn elite_plan_with_given_parents() {
    let plan = elite_crossover_plan_with(&vec![3, 1, 2, 0], 4, 2, &vec![(0, 1), (1, 1)]);
    assert_eq!(plan, vec![Offspring::Survivor(3), Offspring::Survivor(1), Offspring::MutatedCrossover(3, 1), Offspring::MutatedCrossover(1, 1)]);
}

#[test]
fn elite_plan_with_random_parents_keeps_its_shape() {
    let order: Vec<usize> = vec![5, 2, 7, 0, 1, 3, 4, 6];
    for _ in 0..20 {
        let plan = elite_crossover_plan(&order, 8, 3);
        assert_eq!(plan.len(), 8);
        assert_eq!(&plan[..3], &[Offspring::Survivor(5), Offspring::Survivor(2), Offspring::Survivor(7)]);
        for child in &plan[3..] {
            match child {
                Offspring::MutatedCrossover(a, b) => {
                    assert!([5, 2, 7].contains(a));
                    assert!([5, 2, 7].contains(b));
                }
                other => panic!("unexpected offspring {:?}", other),
            }
        }
    }
}

#[test]
fn recombination_plan_dispatches_on_strategy() {
    let order: Vec<usize> = vec![9, 8, 7, 6, 5, 4, 3, 2, 1, 0];
    assert_eq!(
        recombination_plan(ReproductionStrategy::CppEquivalent, &order, 10, 2),
        cpp_equivalent_plan(&order, 10)
    );
    let plan = recombination_plan(ReproductionStrategy::EliteCrossover, &order, 10, 2);
    assert_eq!(plan.len(), 10);
    assert_eq!(&plan[..2], &[Offspring::Survivor(9), Offspring::Survivor(8)]);
    assert!(plan[2..].iter().all(|c| matches!(c, Offspring::MutatedCrossover(a, b) if (*a == 9 || *a == 8) && (*b == 9 || *b == 8))));
}

#[test]
fn generation_summary_of_ranked_fitness() {
    let fitness = vec![pack_score(3, 0), pack_score(7, 1), pack_score(1, 9)];
    let order = select_elites(&fitness);
    assert_eq!(order, vec![1, 0, 2]);
    assert_eq!(generation_summary(&fitness, &order), (7, 1, 11));
}
