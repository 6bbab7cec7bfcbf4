use genetic::config::{Config, ConfigError, Rate};

fn chars(s: &str) -> Vec<char> {
    s.chars().collect()
}

#[test]
fn empty_target_is_rejected() {
    let r = Config::new(chars(""), chars("ab"), 4, Rate::new(0, 1), 10, 1);
    assert_eq!(r.unwrap_err(), ConfigError::EmptyTarget);
}

#[test]
fn empty_gene_set_is_rejected() {
    let r = Config::new(chars("ab"), chars(""), 4, Rate::new(0, 1), 10, 1);
    assert_eq!(r.unwrap_err(), ConfigError::EmptyGeneSet);
}

#[test]
fn target_symbol_missing_from_gene_set_is_rejected() {
    let r = Config::new(chars("abz"), chars("ab"), 4, Rate::new(0, 1), 10, 1);
    assert_eq!(r.unwrap_err(), ConfigError::MissingTargetSymbol);
}

#[test]
fn zero_population_size_is_rejected() {
    let r = Config::new(chars("ab"), chars("ab"), 0, Rate::new(0, 1), 10, 1);
    assert_eq!(r.unwrap_err(), ConfigError::ZeroPopulationSize);
}

#[test]
fn valid_configuration_keeps_its_parameters() {
    let c = Config::new(chars("ab"), chars("bca"), 7, Rate::new(3, 100), 50, 5).unwrap();
    assert_eq!(c.target, chars("ab"));
    assert_eq!(c.gene_set, chars("bca"));
    assert_eq!(c.population_size, 7);
    assert_eq!(c.mutation_rate, Rate::new(3, 100));
    assert_eq!(c.max_generations, 50);
    assert_eq!(c.report_interval, 5);
}

#[test]
fn defaults_are_the_documented_ones() {
    let c = Config::with_defaults(chars("ab"), chars("ab")).unwrap();
    assert_eq!(c.population_size, 100);
    assert_eq!(c.mutation_rate, Rate::new(3, 100));
    assert_eq!(c.max_generations, 1000);
    assert_eq!(c.report_interval, 10);
}
