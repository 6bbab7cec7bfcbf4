use vstd::prelude::*;
use crate::config::Rate;
use crate::rng::RandomSource;

verus! {

/// What reproduction guarantees of an offspring `child` of the parents `p1`
/// and `p2`: it has the parents' length; every gene comes from the parent at
/// the same position or from the gene set; with a mutation rate of exactly 0
/// only from the parents, and with a rate of exactly 1 only from the gene
/// set.
pub open spec fn offspring_of(
    child: Seq<char>,
    p1: Seq<char>,
    p2: Seq<char>,
    gene_set: Seq<char>,
    rate: Rate,
) -> bool {
    &&& child.len() == p1.len()
    &&& (forall|i: int|
        0 <= i < child.len() ==> #[trigger] child[i] == p1[i] || child[i] == p2[i]
            || gene_set.contains(child[i]))
    &&& (rate.is_zero() ==> forall|i: int|
        0 <= i < child.len() ==> #[trigger] child[i] == p1[i] || child[i] == p2[i])
    &&& (rate.is_one() ==> forall|i: int| 0 <= i < child.len() ==> gene_set.contains(#[trigger] child[i]))
}

/// Combine two parent genomes into one offspring: a uniform crossover (an
/// independent fair coin per position, not a single split point), followed by
/// an independent per-position mutation that redraws the gene uniformly from
/// the gene set with probability `mutation_rate`.
///
/// The offspring always has the parents' length. Every output gene comes
/// from one of the two parents or from the gene set; with a mutation rate of
/// exactly 0 only from the parents, and with a rate of exactly 1 only from
/// the gene set.
pub fn reproduce(
    p1: &Vec<char>,
    p2: &Vec<char>,
    gene_set: &Vec<char>,
    mutation_rate: Rate,
    rng: &mut RandomSource,
) -> (r: Vec<char>)
    requires
        p1@.len() == p2@.len(),
        gene_set@.len() > 0,
        mutation_rate.wf(),
    ensures
        offspring_of(r@, p1@, p2@, gene_set@, mutation_rate),
{
    let n = p1.len();
    let mut crossed: Vec<char> = Vec::new();
    let mut i: usize = 0;
    while i < n
        invariant
            i <= n,
            n == p1@.len(),
            n == p2@.len(),
            crossed@.len() == i,
            forall|j: int| 0 <= j < i ==> crossed@[j] == p1@[j] || crossed@[j] == p2@[j],
        decreases n - i,
    {
        let g = if rng.next_below(2) == 0 {
            p1[i]
        } else {
            p2[i]
        };
        crossed.push(g);
        i = i + 1;
    }
    let mut mutated: Vec<char> = Vec::new();
    let mut i: usize = 0;
    while i < n
        invariant
            i <= n,
            n == p1@.len(),
            n == p2@.len(),
            gene_set@.len() > 0,
            mutation_rate.wf(),
            crossed@.len() == n,
            forall|j: int| 0 <= j < n ==> crossed@[j] == p1@[j] || crossed@[j] == p2@[j],
            mutated@.len() == i,
            forall|j: int|
                0 <= j < i ==> mutated@[j] == p1@[j] || mutated@[j] == p2@[j]
                    || gene_set@.contains(mutated@[j]),
            mutation_rate.is_zero() ==> forall|j: int|
                0 <= j < i ==> mutated@[j] == p1@[j] || mutated@[j] == p2@[j],
            mutation_rate.is_one() ==> forall|j: int|
                0 <= j < i ==> gene_set@.contains(mutated@[j]),
        decreases n - i,
    {
        if mutation_rate.sample(rng) {
            let k = rng.next_below(gene_set.len());
            proof {
                assert(gene_set@.contains(gene_set@[k as int]));
            }
            mutated.push(gene_set[k]);
        } else {
            mutated.push(crossed[i]);
        }
        i = i + 1;
    }
    mutated
}

} // verus!
