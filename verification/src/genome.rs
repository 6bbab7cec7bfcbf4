use vstd::prelude::*;
use crate::rng::RandomSource;

verus! {

/// Relies on String::push: it appends the given character to the end of the
/// string.
#[verifier::external_body]
fn push_char(s: &mut String, c: char)
    ensures
        final(s)@ == old(s)@.push(c),
{
    s.push(c)
}

/// Draw a genome of `length` symbols, each chosen independently and uniformly
/// from `gene_set` (with replacement).
pub fn create_random_genome(gene_set: &Vec<char>, length: usize, rng: &mut RandomSource) -> (r:
    Vec<char>)
    requires
        gene_set@.len() > 0,
        length > 0,
    ensures
        r@.len() == length,
        forall|i: int| 0 <= i < r@.len() ==> gene_set@.contains(r@[i]),
{
    let mut g: Vec<char> = Vec::new();
    let mut i: usize = 0;
    while i < length
        invariant
            i <= length,
            g@.len() == i,
            gene_set@.len() > 0,
            forall|j: int| 0 <= j < i ==> gene_set@.contains(g@[j]),
        decreases length - i,
    {
        let k = rng.next_below(gene_set.len());
        proof {
            assert(gene_set@.contains(gene_set@[k as int]));
        }
        g.push(gene_set[k]);
        i = i + 1;
    }
    g
}

/// Decode a genome into the string that holds the same symbols in the same
/// order.
pub fn decode(genome: &Vec<char>) -> (r: String)
    ensures
        r@ == genome@,
{
    let mut s = String::new();
    let mut i: usize = 0;
    while i < genome.len()
        invariant
            i <= genome@.len(),
            s@ == genome@.take(i as int),
        decreases genome@.len() - i,
    {
        push_char(&mut s, genome[i]);
        proof {
            assert(genome@.take(i as int).push(genome@[i as int]) =~= genome@.take(i + 1));
        }
        i = i + 1;
    }
    proof {
        assert(genome@.take(genome@.len() as int) =~= genome@);
    }
    s
}

} // verus!
