use genetic::fitness::Fitness;
use genetic::rng::RandomSource;
use genetic::selector::{build_probability_pool, choose_parent_pair};

fn scores(matches: &[usize], n: usize) -> Vec<Fitness> {
    matches.iter().map(|&m| Fitness { matches: m, out_of: n }).collect()
}

#[test]
fn all_zero_scores_fall_back_to_one_entry_per_index() {
    let pool = build_probability_pool(&scores(&[0, 0, 0], 2), 2);
    assert_eq!(pool, vec![0, 1, 2]);
}

#[test]
fn fractional_scores_expand_by_the_ceiled_inverse_of_the_minimum() {
    // Scores 1/3, 2/3, 3/3: the minimal fractional score is 1/3, the factor
    // ceil(3/1) = 3, so the indices repeat 1, 2 and 3 times.
    let pool = build_probability_pool(&scores(&[1, 2, 3], 3), 3);
    assert_eq!(pool, vec![0, 1, 1, 2, 2, 2]);
}

#[test]
fn zero_scores_never_enter_a_pool_with_positive_entries() {
    // Scores 1/2 and 0/2: factor ceil(2/1) = 2, index 0 once, index 1 never.
    let pool = build_probability_pool(&scores(&[1, 0], 2), 2);
    assert_eq!(pool, vec![0]);
}

#[test]
fn pool_is_nonempty_for_every_mixed_vector() {
    // Any vector with a score strictly between 0 and 1 yields entries.
    for m in 1..5 {
        let pool = build_probability_pool(&scores(&[m, 0, 5], 5), 5);
        assert!(!pool.is_empty());
        assert!(pool.iter().all(|&i| i < 3));
    }
}

#[test]
fn only_perfect_scores_yield_an_empty_pool() {
    // When every positive score is exactly 1, no score defines the
    // resolution and the pool comes out empty.
    let pool = build_probability_pool(&scores(&[2, 0], 2), 2);
    assert!(pool.is_empty());
}

#[test]
fn parent_pair_self_pairs_on_a_single_entry() {
    let mut rng = RandomSource::seeded(11);
    let (a, b) = choose_parent_pair(&vec![4], &mut rng);
    assert_eq!((a, b), (4, 4));
}

#[test]
fn parent_pair_self_pairs_when_all_entries_are_equal() {
    let mut rng = RandomSource::seeded(11);
    let (a, b) = choose_parent_pair(&vec![2, 2, 2, 2], &mut rng);
    assert_eq!((a, b), (2, 2));
}

#[test]
fn parent_pair_entries_come_from_the_pool_and_differ() {
    let pool = vec![0, 0, 1, 2, 2, 2];
    let mut rng = RandomSource::System;
    for _ in 0..200 {
        let (a, b) = choose_parent_pair(&pool, &mut rng);
        assert!(pool.contains(&a));
        assert!(pool.contains(&b));
        assert_ne!(a, b);
    }
}

#[test]
fn parent_indices_are_valid_positions_of_the_fitness_vector() {
    let fv = scores(&[1, 2, 3, 0], 4);
    let pool = build_probability_pool(&fv, 4);
    let mut rng = RandomSource::System;
    for _ in 0..200 {
        let (a, b) = choose_parent_pair(&pool, &mut rng);
        assert!(a < fv.len());
        assert!(b < fv.len());
    }
}
