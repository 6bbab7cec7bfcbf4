use genetic::config::Rate;
use genetic::genome::{create_random_genome, decode};
use genetic::reproducer::reproduce;
use genetic::rng::RandomSource;

fn chars(s: &str) -> Vec<char> {
    s.chars().collect()
}

#[test]
fn offspring_length_equals_parent_length() {
    let p1 = chars("AAAA");
    let p2 = chars("BBBB");
    let genes = chars("ABC");
    let mut rng = RandomSource::seeded(3);
    for _ in 0..20 {
        let child = reproduce(&p1, &p2, &genes, Rate::new(1, 4), &mut rng);
        assert_eq!(child.len(), 4);
    }
}

#[test]
fn zero_mutation_rate_introduces_no_third_value() {
    let p1 = chars("AAAAAAAA");
    let p2 = chars("BBBBBBBB");
    let genes = chars("XYZ");
    let mut rng = RandomSource::System;
    for _ in 0..100 {
        let child = reproduce(&p1, &p2, &genes, Rate::new(0, 1), &mut rng);
        assert!(child.iter().all(|&c| c == 'A' || c == 'B'));
    }
}

#[test]
fn full_mutation_rate_redraws_every_gene_from_the_gene_set() {
    let p1 = chars("AAAAAAAA");
    let p2 = chars("BBBBBBBB");
    let genes = chars("XY");
    let mut rng = RandomSource::System;
    for _ in 0..100 {
        let child = reproduce(&p1, &p2, &genes, Rate::new(1, 1), &mut rng);
        assert!(child.iter().all(|&c| c == 'X' || c == 'Y'));
    }
}

#[test]
fn full_mutation_rate_draws_roughly_uniformly() {
    let p1 = chars("AAAAAAAAAA");
    let p2 = chars("BBBBBBBBBB");
    let genes = chars("XY");
    let mut rng = RandomSource::seeded(99);
    let mut xs: usize = 0;
    let mut total: usize = 0;
    for _ in 0..500 {
        let child = reproduce(&p1, &p2, &genes, Rate::new(1, 1), &mut rng);
        xs += child.iter().filter(|&&c| c == 'X').count();
        total += child.len();
    }
    // A fair redraw over two genes stays well within these bounds.
    assert!(xs * 10 > total * 3, "too few X: {xs} of {total}");
    assert!(xs * 10 < total * 7, "too many X: {xs} of {total}");
}

#[test]
fn random_genome_draws_only_from_the_gene_set() {
    let genes = chars("abc");
    let mut rng = RandomSource::System;
    let g = create_random_genome(&genes, 50, &mut rng);
    assert_eq!(g.len(), 50);
    assert!(g.iter().all(|c| genes.contains(c)));
}

#[test]
fn decode_round_trips_the_symbols() {
    let g = chars("To be!");
    assert_eq!(decode(&g), "To be!".to_string());
}
