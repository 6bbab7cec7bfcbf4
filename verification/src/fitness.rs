use vstd::prelude::*;

verus! {

/// A fitness score as an exact rational: `matches` positions agree with the
/// target out of `out_of` positions in total. The real-valued score of the
/// design is `matches / out_of`, always in `[0, 1]`; a score of exactly `1`
/// (`matches == out_of`) is the unique success condition.
#[derive(Clone, Copy, Debug, PartialEq, Eq, Structural)]
pub struct Fitness {
    pub matches: usize,
    pub out_of: usize,
}

impl Fitness {
    /// A fitness value is well formed when its denominator is positive and
    /// the score lies in `[0, 1]`.
    pub open spec fn wf(self) -> bool {
        self.out_of > 0 && self.matches <= self.out_of
    }

    /// The score is exactly `1`: every position agrees with the target.
    pub open spec fn spec_is_perfect(self) -> bool {
        self.matches == self.out_of
    }

    /// The score is exactly `0`: no position agrees with the target.
    pub open spec fn spec_is_zero(self) -> bool {
        self.matches == 0
    }

    pub fn is_perfect(&self) -> (r: bool)
        ensures
            r == self.spec_is_perfect(),
    {
        self.matches == self.out_of
    }

    pub fn is_zero(&self) -> (r: bool)
        ensures
            r == self.spec_is_zero(),
    {
        self.matches == 0
    }
}

/// Number of positions `i < n` at which `g` and `t` hold the same symbol.
pub open spec fn match_count_upto(g: Seq<char>, t: Seq<char>, n: int) -> nat
    decreases n,
{
    if n <= 0 {
        0
    } else {
        match_count_upto(g, t, n - 1) + (if g[n - 1] == t[n - 1] {
            1nat
        } else {
            0nat
        })
    }
}

/// Number of positions at which genome `g` agrees with target `t`
/// (Hamming similarity, not yet normalized).
pub open spec fn match_count(g: Seq<char>, t: Seq<char>) -> nat {
    match_count_upto(g, t, g.len() as int)
}

pub proof fn lemma_match_count_upto_le(g: Seq<char>, t: Seq<char>, n: int)
    requires
        n >= 0,
    ensures
        match_count_upto(g, t, n) <= n,
    decreases n,
{
    if n > 0 {
        lemma_match_count_upto_le(g, t, n - 1);
    }
}

proof fn lemma_match_count_upto_full(g: Seq<char>, t: Seq<char>, n: int)
    requires
        n >= 0,
    ensures
        match_count_upto(g, t, n) == n <==> (forall|i: int| 0 <= i < n ==> g[i] == t[i]),
    decreases n,
{
    if n > 0 {
        lemma_match_count_upto_full(g, t, n - 1);
        lemma_match_count_upto_le(g, t, n - 1);
    }
}

proof fn lemma_match_count_upto_zero(g: Seq<char>, t: Seq<char>, n: int)
    requires
        n >= 0,
    ensures
        match_count_upto(g, t, n) == 0 <==> (forall|i: int| 0 <= i < n ==> g[i] != t[i]),
    decreases n,
{
    if n > 0 {
        lemma_match_count_upto_zero(g, t, n - 1);
    }
}

/// The score is `1` exactly on the target itself: for a genome `g` of the
/// target's length, `match_count(g, t) == t.len()` iff `g == t` elementwise.
pub proof fn lemma_perfect_fitness_iff_target(g: Seq<char>, t: Seq<char>)
    requires
        g.len() == t.len(),
    ensures
        match_count(g, t) == t.len() <==> g == t,
{
    lemma_match_count_upto_full(g, t, g.len() as int);
    if match_count(g, t) == t.len() {
        assert(g =~= t);
    }
}

/// The score always lies in `[0, 1]`: `match_count` never exceeds the length.
/// The target scores `1` against itself, and a genome that differs from the
/// target in every position scores exactly `0`.
pub proof fn lemma_fitness_range(g: Seq<char>, t: Seq<char>)
    requires
        g.len() == t.len(),
    ensures
        match_count(g, t) <= t.len(),
        match_count(t, t) == t.len(),
        (forall|i: int| 0 <= i < t.len() ==> g[i] != t[i]) ==> match_count(g, t) == 0,
{
    lemma_match_count_upto_le(g, t, g.len() as int);
    lemma_match_count_upto_full(t, t, t.len() as int);
    lemma_match_count_upto_zero(g, t, g.len() as int);
}

/// Score genome `g` against target `t`: the fraction of positions where the
/// two sequences agree, as an exact rational.
pub fn fitness(g: &Vec<char>, t: &Vec<char>) -> (r: Fitness)
    requires
        g@.len() == t@.len(),
        t@.len() > 0,
    ensures
        r.matches == match_count(g@, t@),
        r.out_of == t@.len(),
        r.wf(),
{
    let n = t.len();
    let mut matches: usize = 0;
    let mut i: usize = 0;
    while i < n
        invariant
            i <= n,
            n == t@.len(),
            n == g@.len(),
            matches == match_count_upto(g@, t@, i as int),
            matches <= i,
        decreases n - i,
    {
        if g[i] == t[i] {
            matches = matches + 1;
        }
        i = i + 1;
    }
    proof {
        lemma_match_count_upto_le(g@, t@, n as int);
    }
    Fitness { matches, out_of: n }
}

} // verus!
