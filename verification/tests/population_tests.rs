use genetic::config::{Config, Rate};
use genetic::population::{Individual, Population};
use genetic::rng::RandomSource;
use genetic::selector::SelectionError;

fn chars(s: &str) -> Vec<char> {
    s.chars().collect()
}

fn small_config() -> Config {
    Config::new(chars("AB"), chars("AB"), 4, Rate::new(0, 1), 50, 10).unwrap()
}

#[test]
fn new_population_has_the_configured_size_and_genome_length() {
    let mut rng = RandomSource::seeded(5);
    let p = Population::new(small_config(), &mut rng);
    assert_eq!(p.pop.len(), 4);
    assert_eq!(p.generation, 0);
    for ind in &p.pop {
        assert_eq!(ind.dna.len(), 2);
        assert!(ind.dna.iter().all(|&c| c == 'A' || c == 'B'));
        assert_eq!(ind.fitness.out_of, 2);
    }
}

#[test]
fn individual_caches_the_score_of_its_genome() {
    let target = chars("AB");
    let ind = Individual::new(chars("AA"), &target);
    assert_eq!(ind.fitness.matches, 1);
    assert_eq!(ind.fitness.out_of, 2);
}

fn hand_population(genomes: &[&str], target: &str) -> Population {
    let t = chars(target);
    let pop: Vec<Individual> = genomes.iter().map(|g| Individual::new(chars(g), &t)).collect();
    let config = Config::new(
        t,
        chars("ABCD"),
        genomes.len(),
        Rate::new(0, 1),
        50,
        10,
    )
    .unwrap();
    Population { pop, config, generation: 0 }
}

#[test]
fn fitness_vector_lists_the_cached_scores_in_order() {
    let p = hand_population(&["AA", "AB", "CC"], "AB");
    let fv = p.get_fitness_vector();
    let matches: Vec<usize> = fv.iter().map(|f| f.matches).collect();
    assert_eq!(matches, vec![1, 2, 0]);
}

#[test]
fn max_fitness_is_the_best_score() {
    let p = hand_population(&["AA", "CB", "CC"], "AB");
    let m = p.get_max_fitness();
    assert_eq!(m.matches, 1);
    assert_eq!(m.out_of, 2);
}

#[test]
fn exact_matches_lists_only_genomes_equal_to_the_target() {
    let p = hand_population(&["AB", "BA", "AB", "CC"], "AB");
    let em = p.exact_matches();
    assert_eq!(em, vec!["AB".to_string(), "AB".to_string()]);

    let none = hand_population(&["BA", "CC"], "AB");
    assert!(none.exact_matches().is_empty());
}

#[test]
fn evolve_replaces_the_whole_generation() {
    let mut rng = RandomSource::seeded(5);
    let mut p = Population::new(small_config(), &mut rng);
    let r = p.evolve(&mut rng);
    assert!(r.is_ok());
    assert_eq!(p.generation, 1);
    assert_eq!(p.pop.len(), 4);
    for ind in &p.pop {
        assert_eq!(ind.dna.len(), 2);
        assert!(ind.dna.iter().all(|&c| c == 'A' || c == 'B'));
    }
}

#[test]
fn evolve_reports_an_empty_pool_when_every_score_is_perfect() {
    // With every positive score exactly 1, no score defines the resolution
    // and the expanded pool has no entries.
    let mut p = hand_population(&["AB", "AB", "AB"], "AB");
    let before = p.generation;
    let r = p.evolve(&mut RandomSource::seeded(5));
    assert_eq!(r.unwrap_err(), SelectionError::EmptyPool);
    assert_eq!(p.generation, before);
    assert_eq!(p.pop.len(), 3);
}
