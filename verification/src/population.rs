use vstd::prelude::*;
use crate::config::Config;
use crate::fitness::{
    Fitness, fitness, match_count, lemma_perfect_fitness_iff_target, lemma_fitness_range,
};
use crate::genome::{create_random_genome, decode};
use crate::reproducer::{offspring_of, reproduce};
use crate::rng::RandomSource;
use crate::selector::{
    SelectionError, all_zero, build_probability_pool, choose_parent_pair, matches_seq, spec_pool,
    lemma_pool_nonempty,
};

verus! {

/// Every symbol of `dna` occurs in `gene_set`.
pub open spec fn genes_in_set(dna: Seq<char>, gene_set: Seq<char>) -> bool {
    forall|p: int| 0 <= p < dna.len() ==> gene_set.contains(dna[p])
}

/// No symbol of the gene set occurs anywhere in the target: success is
/// unreachable for genomes drawn from that set.
pub open spec fn disjoint_from_target(target: Seq<char>, gene_set: Seq<char>) -> bool {
    forall|i: int, j: int|
        0 <= i < target.len() && 0 <= j < gene_set.len() ==> #[trigger] gene_set[j]
            != #[trigger] target[i]
}

/// One candidate: a genome paired with the fitness score that was computed
/// from it at construction and cached. The pairing never changes afterwards.
#[derive(Clone, Debug)]
pub struct Individual {
    pub dna: Vec<char>,
    pub fitness: Fitness,
}

impl Individual {
    /// The cached score is exactly the score of `dna` against `target`.
    pub open spec fn wf(self, target: Seq<char>) -> bool {
        &&& self.dna@.len() == target.len()
        &&& self.fitness.out_of == target.len()
        &&& self.fitness.matches == match_count(self.dna@, target)
        &&& self.fitness.matches <= target.len()
    }

    /// Build an individual, scoring the genome eagerly.
    pub fn new(dna: Vec<char>, target: &Vec<char>) -> (r: Individual)
        requires
            dna@.len() == target@.len(),
            target@.len() > 0,
        ensures
            r.wf(target@),
            r.dna == dna,
    {
        let f = fitness(&dna, target);
        Individual { dna, fitness: f }
    }
}

/// One progress event of a run: the generation it describes, the best score
/// in that generation, and the decoded genomes that equal the target.
#[derive(Clone, Debug)]
pub struct Report {
    pub generation: usize,
    pub max_fitness: Fitness,
    pub exact_matches: Vec<String>,
}

/// How many of the first `m` individuals score perfectly against `target`.
pub open spec fn perfect_count_upto(pop: Seq<Individual>, target: Seq<char>, m: int) -> nat
    decreases m,
{
    if m <= 0 {
        0
    } else {
        perfect_count_upto(pop, target, m - 1) + (if pop[m - 1].fitness.matches == target.len() {
            1nat
        } else {
            0nat
        })
    }
}

/// How many individuals of `pop` score perfectly against `target`.
pub open spec fn perfect_count(pop: Seq<Individual>, target: Seq<char>) -> nat {
    perfect_count_upto(pop, target, pop.len() as int)
}

/// The generation counter stands at a reporting point of the given interval.
pub open spec fn at_interval(g: int, interval: usize) -> bool {
    g % (interval as int) == 0
}

/// Every decoded genome in the report equals the target, and the report
/// lists an exact match precisely when its best score is perfect.
pub open spec fn report_wf(r: Report, target: Seq<char>) -> bool {
    &&& r.max_fitness.out_of == target.len()
    &&& r.max_fitness.matches <= target.len()
    &&& (forall|j: int|
        0 <= j < r.exact_matches@.len() ==> (#[trigger] r.exact_matches@[j])@ == target)
    &&& (r.exact_matches@.len() > 0 <==> r.max_fitness.matches == target.len())
}

/// The report is the observation of population `p`: it carries `p`'s
/// generation counter, its best score is attained by some individual and
/// bounds every individual's score, and it lists exactly one line per
/// individual whose genome equals the target.
pub open spec fn report_describes(r: Report, p: Population) -> bool {
    &&& r.generation == p.generation
    &&& (exists|i: int| 0 <= i < p.pop@.len() && r.max_fitness == (#[trigger] p.pop@[i]).fitness)
    &&& (forall|i: int|
        0 <= i < p.pop@.len() ==> (#[trigger] p.pop@[i]).fitness.matches <= r.max_fitness.matches)
    &&& r.exact_matches@.len() == perfect_count(p.pop@, p.config.target@)
}

/// The individual `child` is a legitimate offspring of population `prev`
/// whose scores have denominator `n`: a pair of parent positions drawn from
/// `prev`'s probability pool exists such that `child`'s genome relates to
/// those parents as reproduction guarantees.
pub open spec fn selected_offspring(child: Individual, prev: Population, n: usize) -> bool {
    exists|a: usize, b: usize|
        #[trigger] spec_pool(prev.spec_matches(), n).contains(a) && #[trigger] spec_pool(
            prev.spec_matches(),
            n,
        ).contains(b) && offspring_of(
            child.dna@,
            prev.pop@[a as int].dna@,
            prev.pop@[b as int].dna@,
            prev.config.gene_set@,
            prev.config.mutation_rate,
        )
}

/// The current generation of candidates, together with the immutable
/// configuration and the generation counter. The collection is replaced
/// wholesale each generation, never mutated element by element.
#[derive(Clone, Debug)]
pub struct Population {
    pub pop: Vec<Individual>,
    pub config: Config,
    pub generation: usize,
}

impl Population {
    pub open spec fn wf(self) -> bool {
        &&& self.config.wf()
        &&& self.pop@.len() == self.config.population_size
        &&& (forall|i: int|
            0 <= i < self.pop@.len() ==> (#[trigger] self.pop@[i]).wf(self.config.target@))
        &&& (forall|i: int|
            0 <= i < self.pop@.len() ==> genes_in_set(
                (#[trigger] self.pop@[i]).dna@,
                self.config.gene_set@,
            ))
    }

    /// The cached scores of the current generation, in order.
    pub open spec fn spec_fitnesses(self) -> Seq<Fitness> {
        self.pop@.map_values(|ind: Individual| ind.fitness)
    }

    /// The match counts of the current generation, in order.
    pub open spec fn spec_matches(self) -> Seq<usize> {
        matches_seq(self.spec_fitnesses())
    }

    /// Initialize a population of `population_size` random genomes, scored
    /// eagerly.
    pub fn new(config: Config, rng: &mut RandomSource) -> (r: Population)
        requires
            config.wf(),
        ensures
            r.wf(),
            r.config == config,
            r.generation == 0,
    {
        let mut pop: Vec<Individual> = Vec::new();
        let size = config.population_size;
        let mut i: usize = 0;
        while i < size
            invariant
                i <= size,
                config.wf(),
                pop@.len() == i,
                forall|j: int|
                    0 <= j < i ==> (#[trigger] pop@[j]).wf(config.target@) && genes_in_set(
                        pop@[j].dna@,
                        config.gene_set@,
                    ),
            decreases size - i,
        {
            let dna = create_random_genome(&config.gene_set, config.target.len(), rng);
            let ind = Individual::new(dna, &config.target);
            pop.push(ind);
            i = i + 1;
        }
        Population { pop, config, generation: 0 }
    }

    /// The scores of the current generation as a vector, in order.
    pub fn get_fitness_vector(&self) -> (r: Vec<Fitness>)
        ensures
            r@ == self.spec_fitnesses(),
    {
        let mut fv: Vec<Fitness> = Vec::new();
        let mut i: usize = 0;
        while i < self.pop.len()
            invariant
                i <= self.pop@.len(),
                fv@.len() == i,
                forall|j: int| 0 <= j < i ==> fv@[j] == self.pop@[j].fitness,
            decreases self.pop@.len() - i,
        {
            fv.push(self.pop[i].fitness);
            i = i + 1;
        }
        proof {
            assert(fv@ =~= self.spec_fitnesses());
        }
        fv
    }

    /// The best score of the current generation.
    pub fn get_max_fitness(&self) -> (r: Fitness)
        requires
            self.wf(),
        ensures
            r.out_of == self.config.target@.len(),
            r.matches <= self.config.target@.len(),
            exists|i: int| 0 <= i < self.pop@.len() && r == (#[trigger] self.pop@[i]).fitness,
            forall|i: int|
                0 <= i < self.pop@.len() ==> (#[trigger] self.pop@[i]).fitness.matches <= r.matches,
    {
        let mut best = self.pop[0].fitness;
        let mut i: usize = 1;
        while i < self.pop.len()
            invariant
                self.wf(),
                1 <= i <= self.pop@.len(),
                exists|t: int| 0 <= t < i && best == (#[trigger] self.pop@[t]).fitness,
                forall|t: int|
                    0 <= t < i ==> (#[trigger] self.pop@[t]).fitness.matches <= best.matches,
            decreases self.pop@.len() - i,
        {
            if self.pop[i].fitness.matches > best.matches {
                best = self.pop[i].fitness;
            }
            i = i + 1;
        }
        best
    }

    /// The decoded genomes of the individuals that equal the target, in
    /// population order: one line per perfect individual, so the list is
    /// non-empty exactly when some individual's score is perfect.
    pub fn exact_matches(&self) -> (r: Vec<String>)
        requires
            self.wf(),
        ensures
            forall|j: int| 0 <= j < r@.len() ==> (#[trigger] r@[j])@ == self.config.target@,
            r@.len() == perfect_count(self.pop@, self.config.target@),
            r@.len() > 0 <==> exists|i: int|
                0 <= i < self.pop@.len() && (#[trigger] self.pop@[i]).fitness.matches
                    == self.config.target@.len(),
    {
        let mut out: Vec<String> = Vec::new();
        let mut i: usize = 0;
        while i < self.pop.len()
            invariant
                self.wf(),
                i <= self.pop@.len(),
                forall|j: int| 0 <= j < out@.len() ==> (#[trigger] out@[j])@ == self.config.target@,
                out@.len() == perfect_count_upto(self.pop@, self.config.target@, i as int),
                out@.len() > 0 <==> exists|t: int|
                    0 <= t < i && (#[trigger] self.pop@[t]).fitness.matches
                        == self.config.target@.len(),
            decreases self.pop@.len() - i,
        {
            if self.pop[i].fitness.is_perfect() {
                proof {
                    lemma_perfect_fitness_iff_target(self.pop@[i as int].dna@, self.config.target@);
                }
                out.push(decode(&self.pop[i].dna));
            }
            i = i + 1;
        }
        out
    }

    /// One generation step: score the current candidates, build the
    /// probability pool, then fill every offspring slot by drawing a parent
    /// pair and reproducing. The new generation replaces the old one
    /// wholesale and the counter advances. When the pool comes out empty
    /// (every positive score is exactly 1, so no score defines the
    /// resolution), the step returns the error and changes nothing.
    pub fn evolve(&mut self, rng: &mut RandomSource) -> (r: Result<(), SelectionError>)
        requires
            old(self).wf(),
            old(self).generation < usize::MAX,
        ensures
            final(self).wf(),
            final(self).config == old(self).config,
            r is Ok <==> spec_pool(
                old(self).spec_matches(),
                old(self).config.target@.len() as usize,
            ).len() > 0,
            r is Ok ==> final(self).generation == old(self).generation + 1,
            r is Ok ==> final(self).pop@.len() == old(self).config.population_size && (forall|
                j: int,
            |
                0 <= j < final(self).pop@.len() ==> selected_offspring(
                    #[trigger] final(self).pop@[j],
                    *old(self),
                    old(self).config.target@.len() as usize,
                )),
            r is Err ==> *final(self) == *old(self),
            disjoint_from_target(old(self).config.target@, old(self).config.gene_set@) ==> r is Ok,
    {
        let n = self.config.target.len();
        let fv = self.get_fitness_vector();
        proof {
            assert forall|i: int| 0 <= i < fv@.len() implies (#[trigger] fv@[i]).wf() && fv@[i].out_of
                == n by {
                assert(fv@[i] == self.pop@[i].fitness);
                assert(self.pop@[i].wf(self.config.target@));
            }
            assert(matches_seq(fv@) == self.spec_matches());
        }
        let pool = build_probability_pool(&fv, n);
        if pool.len() == 0 {
            proof {
                if disjoint_from_target(self.config.target@, self.config.gene_set@) {
                    lemma_disjoint_all_zero(*self);
                    lemma_pool_nonempty(self.spec_matches(), n);
                }
            }
            return Err(SelectionError::EmptyPool);
        }
        let size = self.config.population_size;
        let mut new_pop: Vec<Individual> = Vec::new();
        let mut i: usize = 0;
        while i < size
            invariant
                i <= size,
                self.wf(),
                *self == *old(self),
                size == self.config.population_size,
                n == self.config.target@.len(),
                pool@.len() > 0,
                pool@ == spec_pool(old(self).spec_matches(), n),
                forall|j: int| 0 <= j < pool@.len() ==> #[trigger] pool@[j] < self.pop@.len(),
                new_pop@.len() == i,
                forall|j: int|
                    0 <= j < i ==> (#[trigger] new_pop@[j]).wf(self.config.target@) && genes_in_set(
                        new_pop@[j].dna@,
                        self.config.gene_set@,
                    ),
                forall|j: int|
                    0 <= j < i ==> selected_offspring(#[trigger] new_pop@[j], *old(self), n),
            decreases size - i,
        {
            let (pi1, pi2) = choose_parent_pair(&pool, rng);
            proof {
                let t1 = choose|t: int| 0 <= t < pool@.len() && pool@[t] == pi1;
                let t2 = choose|t: int| 0 <= t < pool@.len() && pool@[t] == pi2;
                assert(pool@[t1] < self.pop@.len());
                assert(pool@[t2] < self.pop@.len());
            }
            let child = reproduce(
                &self.pop[pi1].dna,
                &self.pop[pi2].dna,
                &self.config.gene_set,
                self.config.mutation_rate,
                rng,
            );
            proof {
                assert(genes_in_set(self.pop@[pi1 as int].dna@, self.config.gene_set@));
                assert(genes_in_set(self.pop@[pi2 as int].dna@, self.config.gene_set@));
                assert forall|p: int|
                    0 <= p < child@.len() implies self.config.gene_set@.contains(
                    #[trigger] child@[p],
                ) by {
                    assert(self.config.gene_set@.contains(self.pop@[pi1 as int].dna@[p])
                        || self.config.gene_set@.contains(self.pop@[pi2 as int].dna@[p])
                        || self.config.gene_set@.contains(child@[p]));
                }
            }
            let ind = Individual::new(child, &self.config.target);
            new_pop.push(ind);
            proof {
                assert(spec_pool(old(self).spec_matches(), n).contains(pi1));
                assert(spec_pool(old(self).spec_matches(), n).contains(pi2));
                assert(offspring_of(
                    (new_pop@[i as int]).dna@,
                    old(self).pop@[pi1 as int].dna@,
                    old(self).pop@[pi2 as int].dna@,
                    old(self).config.gene_set@,
                    old(self).config.mutation_rate,
                ));
                assert(selected_offspring(new_pop@[i as int], *old(self), n));
            }
            i = i + 1;
        }
        let ghost offspring = new_pop@;
        self.pop = new_pop;
        self.generation = self.generation + 1;
        proof {
            assert(old(self).config.target@.len() as usize == n);
            assert forall|j: int| 0 <= j < self.pop@.len() implies selected_offspring(
                #[trigger] self.pop@[j],
                *old(self),
                old(self).config.target@.len() as usize,
            ) by {
                assert(self.pop@[j] == offspring[j]);
                assert(selected_offspring(offspring[j], *old(self), n));
            }
        }
        Ok(())
    }

    /// Drive the generation loop: step, then check termination, then
    /// observe. A report is emitted after a step when the generation counter
    /// is a multiple of the report interval, when the best score is perfect
    /// (the run then stops), and when the generation cap is reached; so the
    /// final state of a completed run is always reported.
    pub fn run(&mut self, rng: &mut RandomSource) -> (r: Result<Vec<Report>, SelectionError>)
        requires
            old(self).wf(),
            old(self).generation == 0,
        ensures
            final(self).wf(),
            final(self).config == old(self).config,
            final(self).generation <= old(self).config.max_generations,
            r matches Ok(reports) ==> reports@.len() > 0,
            r matches Ok(reports) ==> (forall|k: int|
                0 <= k < reports@.len() ==> report_wf(
                    #[trigger] reports@[k],
                    old(self).config.target@,
                )),
            r matches Ok(reports) ==> (forall|k: int|
                0 <= k < reports@.len() ==> 1 <= (#[trigger] reports@[k]).generation <= old(
                    self,
                ).config.max_generations),
            r matches Ok(reports) ==> (forall|k1: int, k2: int|
                0 <= k1 < k2 < reports@.len() ==> (#[trigger] reports@[k1]).generation < (
                #[trigger] reports@[k2]).generation),
            r matches Ok(reports) ==> report_describes(reports@.last(), *final(self)),
            r matches Ok(reports) ==> (final(self).generation == old(self).config.max_generations
                || reports@.last().max_fitness.matches == old(self).config.target@.len()),
            r matches Ok(reports) ==> (forall|k: int|
                0 <= k < reports@.len() ==> (at_interval(
                    (#[trigger] reports@[k]).generation as int,
                    old(self).config.report_interval,
                ) || reports@[k].max_fitness.matches == old(self).config.target@.len()
                    || reports@[k].generation == old(self).config.max_generations)),
            r matches Ok(reports) ==> (forall|g: int|
                1 <= g <= final(self).generation && #[trigger] at_interval(
                    g,
                    old(self).config.report_interval,
                ) ==> exists|k: int|
                    0 <= k < reports@.len() && (#[trigger] reports@[k]).generation == g),
            disjoint_from_target(old(self).config.target@, old(self).config.gene_set@) ==> r is Ok
                && final(self).generation == old(self).config.max_generations,
            disjoint_from_target(old(self).config.target@, old(self).config.gene_set@) ==> (
            r matches Ok(reports) ==> forall|k: int|
                0 <= k < reports@.len() ==> (#[trigger] reports@[k]).max_fitness.matches == 0),
    {
        let ghost cfg = self.config;
        let mut reports: Vec<Report> = Vec::new();
        let max_g = self.config.max_generations;
        let interval = self.config.report_interval;
        let mut done = false;
        while !done && self.generation < max_g
            invariant
                self.wf(),
                cfg == old(self).config,
                self.config == cfg,
                max_g == cfg.max_generations,
                interval == cfg.report_interval,
                self.generation <= max_g,
                forall|k: int|
                    0 <= k < reports@.len() ==> report_wf(#[trigger] reports@[k], cfg.target@),
                forall|k: int|
                    0 <= k < reports@.len() ==> 1 <= (#[trigger] reports@[k]).generation
                        <= self.generation,
                forall|k1: int, k2: int|
                    0 <= k1 < k2 < reports@.len() ==> (#[trigger] reports@[k1]).generation < (
                    #[trigger] reports@[k2]).generation,
                forall|k: int|
                    0 <= k < reports@.len() ==> (at_interval(
                        (#[trigger] reports@[k]).generation as int,
                        interval,
                    ) || reports@[k].max_fitness.matches == cfg.target@.len()
                        || reports@[k].generation == max_g),
                forall|g: int|
                    1 <= g <= self.generation && #[trigger] at_interval(g, interval) ==> exists|
                        k: int,
                    |
                        0 <= k < reports@.len() && (#[trigger] reports@[k]).generation == g,
                done ==> reports@.len() > 0 && report_describes(reports@.last(), *self)
                    && reports@.last().max_fitness.matches == cfg.target@.len(),
                self.generation == max_g ==> reports@.len() > 0 && report_describes(
                    reports@.last(),
                    *self,
                ),
                disjoint_from_target(cfg.target@, cfg.gene_set@) ==> !done && (forall|k: int|
                    0 <= k < reports@.len() ==> (#[trigger] reports@[k]).max_fitness.matches == 0),
            decreases max_g - self.generation,
        {
            let ghost gen_entry = self.generation;
            let ghost reports_entry = reports@;
            match self.evolve(rng) {
                Ok(_) => {},
                Err(e) => {
                    proof {
                        if disjoint_from_target(cfg.target@, cfg.gene_set@) {
                            assert(false);
                        }
                    }
                    return Err(e);
                },
            }
            let max_f = self.get_max_fitness();
            let perfect = max_f.is_perfect();
            if self.generation % interval == 0 || perfect || self.generation == max_g {
                let em = self.exact_matches();
                proof {
                    if max_f.matches == cfg.target@.len() {
                        let w = choose|t: int|
                            0 <= t < self.pop@.len() && max_f == (#[trigger] self.pop@[t]).fitness;
                        assert(self.pop@[w].fitness.matches == cfg.target@.len());
                    }
                    if em@.len() > 0 {
                        let w = choose|t: int|
                            0 <= t < self.pop@.len() && (#[trigger] self.pop@[t]).fitness.matches
                                == cfg.target@.len();
                        assert(self.pop@[w].fitness.matches <= max_f.matches);
                    }
                }
                let rep = Report {
                    generation: self.generation,
                    max_fitness: max_f,
                    exact_matches: em,
                };
                proof {
                    assert(report_wf(rep, cfg.target@));
                    assert(report_describes(rep, *self));
                    if disjoint_from_target(cfg.target@, cfg.gene_set@) {
                        lemma_disjoint_all_zero(*self);
                        let w = choose|t: int|
                            0 <= t < self.pop@.len() && max_f == (#[trigger] self.pop@[t]).fitness;
                        assert(self.spec_matches()[w] == self.pop@[w].fitness.matches);
                        assert(max_f.matches == 0);
                    }
                }
                reports.push(rep);
                proof {
                    assert(reports@.last() == rep);
                }
            }
            if perfect {
                proof {
                    if disjoint_from_target(cfg.target@, cfg.gene_set@) {
                        lemma_disjoint_all_zero(*self);
                        let w = choose|t: int|
                            0 <= t < self.pop@.len() && max_f == (#[trigger] self.pop@[t]).fitness;
                        assert(self.spec_matches()[w] == self.pop@[w].fitness.matches);
                        assert(false);
                    }
                }
                done = true;
            }
            proof {
                assert(self.generation == gen_entry + 1);
                assert forall|g: int|
                    1 <= g <= self.generation && #[trigger] at_interval(g, interval) implies exists|
                    k: int,
                |
                    0 <= k < reports@.len() && (#[trigger] reports@[k]).generation == g by {
                    if g <= gen_entry {
                        let k0 = choose|k: int|
                            0 <= k < reports_entry.len() && (#[trigger] reports_entry[k]).generation
                                == g;
                        assert(reports@[k0].generation == g);
                    } else {
                        assert(g == self.generation);
                        assert(reports@.last().generation == g);
                    }
                }
            }
        }
        proof {
            assert(interval == old(self).config.report_interval);
            assert forall|g: int|
                1 <= g <= self.generation && #[trigger] at_interval(
                    g,
                    old(self).config.report_interval,
                ) implies exists|k: int|
                0 <= k < reports@.len() && (#[trigger] reports@[k]).generation == g by {
                assert(at_interval(g, interval));
            }
            assert forall|k: int| 0 <= k < reports@.len() implies (at_interval(
                (#[trigger] reports@[k]).generation as int,
                old(self).config.report_interval,
            ) || reports@[k].max_fitness.matches == old(self).config.target@.len()
                || reports@[k].generation == old(self).config.max_generations) by {
                assert(at_interval(reports@[k].generation as int, interval)
                    || reports@[k].max_fitness.matches == cfg.target@.len()
                    || reports@[k].generation == max_g);
            }
        }
        Ok(reports)
    }
}

/// A population whose gene set shares no symbol with the target scores zero
/// everywhere: every genome is drawn from the gene set, so no position can
/// ever agree with the target.
pub proof fn lemma_disjoint_all_zero(p: Population)
    requires
        p.wf(),
        disjoint_from_target(p.config.target@, p.config.gene_set@),
    ensures
        all_zero(p.spec_matches()),
{
    let target = p.config.target@;
    let gene_set = p.config.gene_set@;
    assert forall|i: int| 0 <= i < p.spec_matches().len() implies p.spec_matches()[i] == 0 by {
        let ind = p.pop@[i];
        assert forall|q: int| 0 <= q < target.len() implies ind.dna@[q] != target[q] by {
            assert(gene_set.contains(ind.dna@[q]));
            let j = choose|j: int| 0 <= j < gene_set.len() && gene_set[j] == ind.dna@[q];
        }
        lemma_fitness_range(ind.dna@, target);
        assert(p.spec_matches()[i] == ind.fitness.matches);
    }
}

} // verus!
