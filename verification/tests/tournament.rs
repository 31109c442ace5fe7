use pong_evo::tournament::{
    after_tick, apply_deltas, deadline_verdict, fitness_delta, longest_match, mutation_sources,
    pick_opponents, rank_weakest_first, serve_side, MatchStatus, Side, MAX_MATCH_TICKS,
};

#[test]
fn serve_alternates() {
    assert_eq!(serve_side(0), Side::Left);
    assert_eq!(serve_side(1), Side::Right);
    assert_eq!(serve_side(2), Side::Left);
}

#[test]
fn deadline_gives_left_the_match() {
    assert_eq!(deadline_verdict(0), None);
    assert_eq!(deadline_verdict(MAX_MATCH_TICKS - 1), None);
    assert_eq!(deadline_verdict(MAX_MATCH_TICKS), Some((Side::Left, MAX_MATCH_TICKS)));
}

#[test]
fn after_tick_counts_or_finishes() {
    assert_eq!(after_tick(10, None), MatchStatus::Running(11));
    assert_eq!(after_tick(10, Some(Side::Right)), MatchStatus::Finished(Side::Right, 10));
}

#[test]
fn fitness_delta_counts_wins_minus_losses() {
    assert_eq!(fitness_delta(&vec![]), 0);
    assert_eq!(fitness_delta(&vec![Side::Left, Side::Left, Side::Right]), 1);
    assert_eq!(fitness_delta(&vec![Side::Right; 127]), -127);
    assert_eq!(fitness_delta(&vec![Side::Left; 127]), 127);
}

#[test]
fn longest_match_is_the_maximum() {
    assert_eq!(longest_match(&vec![]), 0);
    assert_eq!(longest_match(&vec![3, 9, 2]), 9);
}

#[test]
fn apply_deltas_adds() {
    let mut f: Vec<i8> = vec![1, -2, 100];
    apply_deltas(&mut f, &vec![3, -4, 27]);
    assert_eq!(f, vec![4, -6, 127]);
}

#[test]
fn opponents_are_distinct_and_not_self() {
    for _ in 0..50 {
        let r = pick_opponents(10, 3, 5);
        assert_eq!(r.len(), 4);
        for (x, a) in r.iter().enumerate() {
            assert!(*a < 10 && *a != 3);
            for b in &r[x + 1..] {
                assert_ne!(a, b);
            }
        }
    }
    let all = pick_opponents(3, 0, 10);
    let mut sorted = all.clone();
    sorted.sort();
    assert_eq!(sorted, vec![1, 2]);
    assert!(pick_opponents(5, 2, 1).is_empty());
}

#[test]
fn mutation_sources_are_elites() {
    let r = mutation_sources(10, 3);
    assert_eq!(r.len(), 7);
    assert!(r.iter().all(|&k| (7..10).contains(&k)));
    assert!(mutation_sources(4, 4).is_empty());
}

#[test]
fn rank_weakest_first_is_a_stable_sort() {
    assert_eq!(rank_weakest_first(&vec![3, -1, 3, 0]), vec![1, 3, 0, 2]);
    assert_eq!(rank_weakest_first(&vec![]), Vec::<usize>::new());
}
