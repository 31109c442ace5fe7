use pong_evo::random::random_u64;

#[test]
fn random_u64_varies() {
    let draws: Vec<u64> = (0..8).map(|_| random_u64()).collect();
    assert!(draws.iter().any(|&d| d != draws[0]));
}
