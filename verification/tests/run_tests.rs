use genetic::config::{Config, Rate};
use genetic::population::Population;
use genetic::rng::RandomSource;

fn chars(s: &str) -> Vec<char> {
    s.chars().collect()
}

#[test]
fn converges_on_a_tiny_search_space() {
    // Target "AB" over the gene set {A, B} with four individuals and no
    // mutation: the search space has only four genomes, so selection finds
    // the target within the generation cap for almost every seed.
    let mut converged = 0;
    for seed in 1..=10u64 {
        let config = Config::new(chars("AB"), chars("AB"), 4, Rate::new(0, 1), 50, 10).unwrap();
        let mut rng = RandomSource::seeded(seed);
        let mut p = Population::new(config, &mut rng);
        if let Ok(reports) = p.run(&mut rng) {
            if reports.iter().any(|r| r.max_fitness.is_perfect()) {
                let last = reports.last().unwrap();
                assert!(last.exact_matches.iter().all(|s| s == "AB"));
                converged += 1;
            }
        }
    }
    assert!(converged >= 1, "no seed converged within 50 generations");
}

#[test]
fn disjoint_gene_set_never_reports_success() {
    // The gene set shares no symbol with the target: the best score stays 0
    // in every generation and the run ends at the generation cap.
    let config = Config {
        target: chars("AB"),
        gene_set: chars("CD"),
        population_size: 4,
        mutation_rate: Rate::new(3, 100),
        max_generations: 30,
        report_interval: 10,
    };
    let mut rng = RandomSource::seeded(8);
    let mut p = Population::new(config, &mut rng);
    let reports = p.run(&mut rng).unwrap();
    assert_eq!(p.generation, 30);
    assert!(!reports.is_empty());
    for r in &reports {
        assert!(r.max_fitness.is_zero());
        assert!(r.exact_matches.is_empty());
    }
    assert_eq!(reports.last().unwrap().generation, 30);
}

#[test]
fn identical_seeds_give_identical_runs() {
    let trace = |seed: u64| -> Vec<(usize, usize)> {
        let config =
            Config::new(chars("to be"), chars("tobe "), 20, Rate::new(3, 100), 40, 5).unwrap();
        let mut rng = RandomSource::seeded(seed);
        let mut p = Population::new(config, &mut rng);
        let reports = p.run(&mut rng).unwrap();
        reports.iter().map(|r| (r.generation, r.max_fitness.matches)).collect()
    };
    let a = trace(1234);
    let b = trace(1234);
    assert_eq!(a, b);
    assert!(!a.is_empty());
}

#[test]
fn run_reports_cover_interval_and_final_generation() {
    let config = Config {
        target: chars("AB"),
        gene_set: chars("CD"),
        population_size: 3,
        mutation_rate: Rate::new(1, 2),
        max_generations: 25,
        report_interval: 10,
    };
    let mut rng = RandomSource::seeded(2);
    let mut p = Population::new(config, &mut rng);
    let reports = p.run(&mut rng).unwrap();
    let gens: Vec<usize> = reports.iter().map(|r| r.generation).collect();
    assert_eq!(gens, vec![10, 20, 25]);
}

#[test]
fn system_draws_stay_below_the_bound() {
    let mut rng = RandomSource::System;
    assert_eq!(rng.next_below(1), 0);
    for n in 2..6usize {
        for _ in 0..100 {
            assert!(rng.next_below(n) < n);
        }
    }
}

#[test]
fn seeded_draws_are_reproducible() {
    let mut a = RandomSource::seeded(77);
    let mut b = RandomSource::seeded(77);
    for _ in 0..50 {
        assert_eq!(a.next_below(1000), b.next_below(1000));
    }
}
