use vstd::prelude::*;
use crate::rng::{RandomSource, seeded_draw, xorshift_step};

verus! {

/// A probability as an exact rational `num / den`, always in `[0, 1]`.
#[derive(Clone, Copy, Debug, PartialEq, Eq, Structural)]
pub struct Rate {
    pub num: usize,
    pub den: usize,
}

impl Rate {
    pub open spec fn wf(self) -> bool {
        self.den > 0 && self.num <= self.den
    }

    /// The probability is exactly `0`.
    pub open spec fn is_zero(self) -> bool {
        self.num == 0
    }

    /// The probability is exactly `1`.
    pub open spec fn is_one(self) -> bool {
        self.num == self.den
    }

    pub fn new(num: usize, den: usize) -> (r: Rate)
        requires
            den > 0,
            num <= den,
        ensures
            r == (Rate { num, den }),
            r.wf(),
    {
        Rate { num, den }
    }

    /// One Bernoulli trial: true with probability `num / den`. A zero rate
    /// never fires and a rate of one always fires; on a seeded source the
    /// outcome is a function of the source's state.
    pub fn sample(&self, rng: &mut RandomSource) -> (r: bool)
        requires
            self.wf(),
        ensures
            self.is_zero() ==> r == false,
            self.is_one() ==> r == true,
            *old(rng) is System ==> *final(rng) is System,
            *old(rng) is Seeded ==> *final(rng) is Seeded
                && final(rng)->state == xorshift_step(old(rng)->state)
                && r == (seeded_draw(old(rng)->state, self.den) < self.num),
    {
        let d = rng.next_below(self.den);
        d < self.num
    }
}

/// The reason a configuration was rejected before any generation ran.
#[derive(Clone, Copy, Debug, PartialEq, Eq, Structural)]
pub enum ConfigError {
    /// The target sequence has length zero.
    EmptyTarget,
    /// The gene set holds no symbol at all.
    EmptyGeneSet,
    /// Some symbol of the target does not occur in the gene set, so success
    /// would be unreachable.
    MissingTargetSymbol,
    /// The population size is zero.
    ZeroPopulationSize,
}

/// True when every symbol of `target` occurs somewhere in `gene_set`.
pub open spec fn target_covered(target: Seq<char>, gene_set: Seq<char>) -> bool {
    forall|i: int| 0 <= i < target.len() ==> gene_set.contains(target[i])
}

/// Whether `v` holds the symbol `c`.
pub fn contains_char(v: &Vec<char>, c: char) -> (r: bool)
    ensures
        r == v@.contains(c),
{
    let mut i: usize = 0;
    while i < v.len()
        invariant
            i <= v@.len(),
            forall|j: int| 0 <= j < i ==> v@[j] != c,
        decreases v@.len() - i,
    {
        if v[i] == c {
            return true;
        }
        i = i + 1;
    }
    false
}

/// The immutable configuration of one run: the target sequence, the alphabet
/// the genomes draw from, and the numeric parameters of the loop.
#[derive(Clone, Debug)]
pub struct Config {
    pub target: Vec<char>,
    pub gene_set: Vec<char>,
    pub population_size: usize,
    pub mutation_rate: Rate,
    pub max_generations: usize,
    pub report_interval: usize,
}

impl Config {
    pub open spec fn wf(self) -> bool {
        &&& self.target@.len() > 0
        &&& self.gene_set@.len() > 0
        &&& self.population_size > 0
        &&& self.mutation_rate.wf()
        &&& self.max_generations > 0
        &&& self.report_interval > 0
        &&& self.target@.len() * self.target@.len() <= usize::MAX
    }

    /// Validate and build a configuration. Each way a configuration can be
    /// invalid maps to exactly one error, checked in the order of the
    /// `ConfigError` variants.
    pub fn new(
        target: Vec<char>,
        gene_set: Vec<char>,
        population_size: usize,
        mutation_rate: Rate,
        max_generations: usize,
        report_interval: usize,
    ) -> (r: Result<Config, ConfigError>)
        requires
            mutation_rate.wf(),
            max_generations > 0,
            report_interval > 0,
            target@.len() * target@.len() <= usize::MAX,
        ensures
            r is Ok <==> (target@.len() > 0 && gene_set@.len() > 0 && target_covered(
                target@,
                gene_set@,
            ) && population_size > 0),
            r matches Ok(c) ==> c.wf() && target_covered(c.target@, c.gene_set@) && c.target
                == target && c.gene_set == gene_set
                && c.population_size == population_size && c.mutation_rate == mutation_rate
                && c.max_generations == max_generations && c.report_interval == report_interval,
            r matches Err(e) ==> {
                &&& (e is EmptyTarget <==> target@.len() == 0)
                &&& (e is EmptyGeneSet <==> target@.len() > 0 && gene_set@.len() == 0)
                &&& (e is MissingTargetSymbol <==> target@.len() > 0 && gene_set@.len() > 0
                    && !target_covered(target@, gene_set@))
                &&& (e is ZeroPopulationSize <==> target@.len() > 0 && gene_set@.len() > 0
                    && target_covered(target@, gene_set@) && population_size == 0)
            },
    {
        if target.len() == 0 {
            return Err(ConfigError::EmptyTarget);
        }
        if gene_set.len() == 0 {
            return Err(ConfigError::EmptyGeneSet);
        }
        let mut i: usize = 0;
        while i < target.len()
            invariant
                i <= target@.len(),
                target@.len() > 0,
                gene_set@.len() > 0,
                forall|j: int| 0 <= j < i ==> gene_set@.contains(target@[j]),
            decreases target@.len() - i,
        {
            if !contains_char(&gene_set, target[i]) {
                proof {
                    assert(!gene_set@.contains(target@[i as int]));
                    assert(!target_covered(target@, gene_set@));
                }
                return Err(ConfigError::MissingTargetSymbol);
            }
            i = i + 1;
        }
        if population_size == 0 {
            return Err(ConfigError::ZeroPopulationSize);
        }
        Ok(
            Config {
                target,
                gene_set,
                population_size,
                mutation_rate,
                max_generations,
                report_interval,
            },
        )
    }

    /// A configuration with the default parameters: a population of 100, a
    /// mutation rate of 3/100, a cap of 1000 generations and a report every
    /// 10.
    pub fn with_defaults(target: Vec<char>, gene_set: Vec<char>) -> (r: Result<
        Config,
        ConfigError,
    >)
        requires
            target@.len() * target@.len() <= usize::MAX,
        ensures
            r is Ok <==> (target@.len() > 0 && gene_set@.len() > 0 && target_covered(
                target@,
                gene_set@,
            )),
            r matches Ok(c) ==> c.wf() && target_covered(c.target@, c.gene_set@) && c.target
                == target && c.gene_set == gene_set && c.population_size == 100 && c.mutation_rate
                == (Rate { num: 3, den: 100 }) && c.max_generations == 1000 && c.report_interval
                == 10,
    {
        Config::new(target, gene_set, 100, Rate::new(3, 100), 1000, 10)
    }
}

} // verus!
