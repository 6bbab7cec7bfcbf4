use vstd::prelude::*;
use vstd::arithmetic::div_mod::{lemma_fundamental_div_mod, lemma_mod_bound};
use crate::fitness::Fitness;
use crate::rng::RandomSource;

verus! {

/// The error of the selection step: a draw was attempted from a pool that
/// holds no entries.
#[derive(Clone, Copy, Debug, PartialEq, Eq, Structural)]
pub enum SelectionError {
    EmptyPool,
}

/// The match counts of a fitness vector, one count per individual.
pub open spec fn matches_seq(fv: Seq<Fitness>) -> Seq<usize> {
    fv.map_values(|f: Fitness| f.matches)
}

/// Every count in `ks` is zero: a maximally unfit population.
pub open spec fn all_zero(ks: Seq<usize>) -> bool {
    forall|i: int| 0 <= i < ks.len() ==> ks[i] == 0
}

/// The smallest count among the first `m` whose score is strictly between
/// 0 and 1 (count strictly between 0 and `n`), or 0 when no such count
/// exists. Scores of exactly 0 or 1 never define the resolution.
pub open spec fn min_frac_upto(ks: Seq<usize>, n: usize, m: int) -> usize
    decreases m,
{
    if m <= 0 {
        0
    } else {
        let prev = min_frac_upto(ks, n, m - 1);
        let k = ks[m - 1];
        if 0 < k < n && (prev == 0 || k < prev) {
            k
        } else {
            prev
        }
    }
}

pub open spec fn min_frac(ks: Seq<usize>, n: usize) -> usize {
    min_frac_upto(ks, n, ks.len() as int)
}

/// The multiplier that turns fractional scores into integer repeat counts:
/// `ceil(1 / m)` for the minimal fractional score `m = min_frac / n`, and 0
/// when no fractional score exists (then every repeat count is 0).
pub open spec fn spec_factor(ks: Seq<usize>, n: usize) -> int {
    if min_frac(ks, n) == 0 {
        0
    } else {
        (n + min_frac(ks, n) - 1) / (min_frac(ks, n) as int)
    }
}

/// How many times an index with count `k` is repeated in the pool:
/// `floor((k / n) * factor)`, and never for a count of zero.
pub open spec fn entry_count(k: usize, n: usize, factor: int) -> nat {
    if k == 0 {
        0
    } else {
        ((k * factor) / (n as int)) as nat
    }
}

pub open spec fn spec_repeat(v: usize, c: nat) -> Seq<usize> {
    Seq::new(c, |j: int| v)
}

/// The pool contributed by the first `m` counts.
pub open spec fn pool_upto(ks: Seq<usize>, n: usize, factor: int, m: int) -> Seq<usize>
    decreases m,
{
    if m <= 0 {
        Seq::empty()
    } else {
        pool_upto(ks, n, factor, m - 1) + spec_repeat(
            (m - 1) as usize,
            entry_count(ks[m - 1], n, factor),
        )
    }
}

/// The probability pool over a vector of match counts `ks` with common
/// denominator `n`: when every count is zero, each index appears exactly once
/// (selection degenerates to uniform); otherwise index `i` appears
/// `entry_count(ks[i], n, factor)` times and indices with count zero never
/// appear.
pub open spec fn spec_pool(ks: Seq<usize>, n: usize) -> Seq<usize> {
    if all_zero(ks) {
        Seq::new(ks.len(), |i: int| i as usize)
    } else {
        pool_upto(ks, n, spec_factor(ks, n), ks.len() as int)
    }
}

proof fn lemma_min_frac_props(ks: Seq<usize>, n: usize, m: int)
    requires
        0 <= m <= ks.len(),
    ensures
        min_frac_upto(ks, n, m) != 0 ==> 0 < min_frac_upto(ks, n, m) < n && exists|j: int|
            0 <= j < m && ks[j] == min_frac_upto(ks, n, m),
        min_frac_upto(ks, n, m) == 0 ==> forall|i: int| 0 <= i < m ==> !(0 < #[trigger] ks[i] < n),
    decreases m,
{
    if m > 0 {
        lemma_min_frac_props(ks, n, m - 1);
    }
}

proof fn lemma_pool_upto_entries(ks: Seq<usize>, n: usize, factor: int, m: int)
    requires
        0 <= m,
    ensures
        forall|j: int|
            0 <= j < pool_upto(ks, n, factor, m).len() ==> pool_upto(ks, n, factor, m)[j] < m,
    decreases m,
{
    if m > 0 {
        lemma_pool_upto_entries(ks, n, factor, m - 1);
        let p = pool_upto(ks, n, factor, m);
        let prev = pool_upto(ks, n, factor, m - 1);
        let rep = spec_repeat((m - 1) as usize, entry_count(ks[m - 1], n, factor));
        assert forall|j: int| 0 <= j < p.len() implies p[j] < m by {
            if j < prev.len() {
                assert(p[j] == prev[j]);
            } else {
                assert(p[j] == rep[j - prev.len()]);
            }
        }
    }
}

/// Every entry of the pool is a valid position in the vector of counts it
/// was built from.
pub proof fn lemma_pool_entries_in_range(ks: Seq<usize>, n: usize)
    ensures
        forall|j: int| 0 <= j < spec_pool(ks, n).len() ==> spec_pool(ks, n)[j] < ks.len(),
{
    if !all_zero(ks) {
        lemma_pool_upto_entries(ks, n, spec_factor(ks, n), ks.len() as int);
    }
}

/// An index drawn from the pool is a valid position in the fitness vector
/// the pool was built from.
pub proof fn lemma_parent_index_valid(ks: Seq<usize>, n: usize, p: usize)
    requires
        spec_pool(ks, n).contains(p),
    ensures
        p < ks.len(),
{
    lemma_pool_entries_in_range(ks, n);
    let j = choose|j: int| 0 <= j < spec_pool(ks, n).len() && spec_pool(ks, n)[j] == p;
}

proof fn lemma_pool_upto_len_ge(ks: Seq<usize>, n: usize, factor: int, j: int, m: int)
    requires
        0 <= j < m,
    ensures
        pool_upto(ks, n, factor, m).len() >= entry_count(ks[j], n, factor),
    decreases m,
{
    if j < m - 1 {
        lemma_pool_upto_len_ge(ks, n, factor, j, m - 1);
    }
}

/// The pool of a non-empty vector of counts is non-empty whenever every
/// count is zero (the uniform fallback fills it), or some count lies
/// strictly between 0 and `n` (that count repeats its index at least once).
/// When every positive count equals `n` exactly, no count defines the
/// resolution, the factor is 0 and the pool comes out empty.
pub proof fn lemma_pool_nonempty(ks: Seq<usize>, n: usize)
    requires
        n > 0,
        ks.len() > 0,
        all_zero(ks) || exists|i: int| 0 <= i < ks.len() && 0 < #[trigger] ks[i] < n,
    ensures
        spec_pool(ks, n).len() > 0,
{
    if !all_zero(ks) {
        lemma_min_frac_props(ks, n, ks.len() as int);
        assert(min_frac(ks, n) != 0) by {
            let i = choose|i: int| 0 <= i < ks.len() && 0 < #[trigger] ks[i] < n;
            if min_frac(ks, n) == 0 {
                assert(!(0 < ks[i] < n));
            }
        }
        let km = min_frac(ks, n) as int;
        let f = spec_factor(ks, n);
        lemma_fundamental_div_mod(n + km - 1, km);
        lemma_mod_bound(n + km - 1, km);
        assert(f * km >= n) by (nonlinear_arith)
            requires
                n + km - 1 == km * f + ((n + km - 1) % km),
                0 <= (n + km - 1) % km < km,
                1 <= km,
        ;
        assert(entry_count(min_frac(ks, n), n, f) >= 1) by {
            lemma_mod_bound(km * f, n as int);
            lemma_fundamental_div_mod(km * f, n as int);
            assert((km * f) / (n as int) >= 1) by (nonlinear_arith)
                requires
                    km * f >= n,
                    n > 0,
                    km * f == (n as int) * ((km * f) / (n as int)) + ((km * f) % (n as int)),
                    0 <= (km * f) % (n as int) < n,
            ;
        }
        let j = choose|j: int| 0 <= j < ks.len() && ks[j] == min_frac(ks, n);
        lemma_pool_upto_len_ge(ks, n, f, j, ks.len() as int);
    }
}

/// Build the roulette-wheel pool from a fitness vector whose scores all have
/// the common denominator `n`: an expanded index list in which fitter
/// individuals appear more often.
pub fn build_probability_pool(fv: &Vec<Fitness>, n: usize) -> (r: Vec<usize>)
    requires
        n > 0,
        n * n <= usize::MAX,
        forall|i: int| 0 <= i < fv@.len() ==> fv@[i].wf() && fv@[i].out_of == n,
    ensures
        r@ == spec_pool(matches_seq(fv@), n),
        forall|j: int| 0 <= j < r@.len() ==> r@[j] < fv@.len(),
{
    let ghost ks = matches_seq(fv@);
    proof {
        assert(ks.len() == fv@.len());
        assert(forall|i: int| 0 <= i < fv@.len() ==> ks[i] == fv@[i].matches);
    }
    let len = fv.len();

    let mut all0 = true;
    let mut i: usize = 0;
    while i < len
        invariant
            i <= len,
            len == fv@.len(),
            len == ks.len(),
            forall|j: int| 0 <= j < len ==> ks[j] == fv@[j].matches,
            all0 ==> (forall|j: int| 0 <= j < i ==> ks[j] == 0),
            !all0 ==> (exists|j: int| 0 <= j < i && #[trigger] ks[j] != 0),
        decreases len - i,
    {
        if fv[i].matches > 0 {
            all0 = false;
            proof {
                assert(ks[i as int] != 0);
            }
        }
        i = i + 1;
    }

    if all0 {
        let mut pool: Vec<usize> = Vec::new();
        let mut i: usize = 0;
        while i < len
            invariant
                i <= len,
                pool@.len() == i,
                forall|j: int| 0 <= j < i ==> pool@[j] == j,
            decreases len - i,
        {
            pool.push(i);
            i = i + 1;
        }
        proof {
            assert(all_zero(ks));
            assert(pool@ =~= Seq::new(ks.len(), |t: int| t as usize));
        }
        return pool;
    }

    let mut kmin: usize = 0;
    let mut i: usize = 0;
    while i < len
        invariant
            i <= len,
            len == fv@.len(),
            len == ks.len(),
            forall|j: int| 0 <= j < len ==> ks[j] == fv@[j].matches,
            kmin == min_frac_upto(ks, n, i as int),
        decreases len - i,
    {
        let k = fv[i].matches;
        if k > 0 && k < n && (kmin == 0 || k < kmin) {
            kmin = k;
        }
        i = i + 1;
    }
    proof {
        assert(kmin == min_frac(ks, n));
    }

    let factor: usize;
    if kmin == 0 {
        factor = 0;
    } else {
        proof {
            lemma_min_frac_props(ks, n, len as int);
            assert(kmin < n);
            assert(2 * n <= n * n) by (nonlinear_arith)
                requires
                    n >= 2,
            ;
        }
        factor = (n - 1 + kmin) / kmin;
        proof {
            lemma_fundamental_div_mod((n - 1 + kmin) as int, kmin as int);
            lemma_mod_bound((n - 1 + kmin) as int, kmin as int);
            assert(factor <= n) by (nonlinear_arith)
                requires
                    (n - 1 + kmin) as int == kmin as int * (factor as int) + ((n - 1 + kmin) as int
                        % (kmin as int)),
                    0 <= (n - 1 + kmin) as int % (kmin as int) < kmin as int,
                    1 <= kmin as int,
                    (kmin as int) < n as int,
            ;
        }
    }
    proof {
        assert(factor as int == spec_factor(ks, n));
    }

    let mut pool: Vec<usize> = Vec::new();
    let mut i: usize = 0;
    while i < len
        invariant
            i <= len,
            len == fv@.len(),
            len == ks.len(),
            forall|j: int| 0 <= j < len ==> ks[j] == fv@[j].matches && ks[j] <= n,
            n > 0,
            n * n <= usize::MAX,
            factor <= n,
            factor as int == spec_factor(ks, n),
            pool@ == pool_upto(ks, n, factor as int, i as int),
        decreases len - i,
    {
        let k = fv[i].matches;
        proof {
            assert(k == ks[i as int] && ks[i as int] <= n);
            assert(k * factor <= n * n) by (nonlinear_arith)
                requires
                    k <= n,
                    factor <= n,
            ;
        }
        let count: usize = if k > 0 {
            (k * factor) / n
        } else {
            0
        };
        proof {
            assert(count == entry_count(ks[i as int], n, factor as int));
        }
        let mut j: usize = 0;
        while j < count
            invariant
                j <= count,
                i < len,
                len == ks.len(),
                count == entry_count(ks[i as int], n, factor as int),
                pool@ == pool_upto(ks, n, factor as int, i as int) + spec_repeat(i, j as nat),
            decreases count - j,
        {
            proof {
                assert(pool_upto(ks, n, factor as int, i as int) + spec_repeat(i, (j + 1) as nat)
                    =~= (pool_upto(ks, n, factor as int, i as int) + spec_repeat(
                    i,
                    j as nat,
                )).push(i));
            }
            pool.push(i);
            j = j + 1;
        }
        proof {
            assert(pool_upto(ks, n, factor as int, i as int + 1) =~= pool_upto(
                ks,
                n,
                factor as int,
                i as int,
            ) + spec_repeat(i, entry_count(ks[i as int], n, factor as int)));
        }
        i = i + 1;
    }
    proof {
        assert(!all_zero(ks));
        assert(pool@ == spec_pool(ks, n));
        lemma_pool_entries_in_range(ks, n);
    }
    pool
}

/// Whether every entry of the pool names the same index.
fn all_entries_equal(pool: &Vec<usize>) -> (r: bool)
    requires
        pool@.len() > 0,
    ensures
        r == (forall|i: int| 0 <= i < pool@.len() ==> #[trigger] pool@[i] == pool@[0]),
{
    let first = pool[0];
    let mut i: usize = 1;
    while i < pool.len()
        invariant
            1 <= i <= pool@.len(),
            first == pool@[0],
            forall|j: int| 0 <= j < i ==> #[trigger] pool@[j] == pool@[0],
        decreases pool@.len() - i,
    {
        if pool[i] != first {
            return false;
        }
        i = i + 1;
    }
    true
}

/// Draw a pair of parent indices from the pool. The first is drawn
/// uniformly; when every pool entry names the same index the pair is a
/// self-pairing, otherwise the second is redrawn until it differs from the
/// first. The redraw is bounded and falls back to a direct scan for a
/// differing entry, so the function terminates on every source.
pub fn choose_parent_pair(pool: &Vec<usize>, rng: &mut RandomSource) -> (r: (usize, usize))
    requires
        pool@.len() > 0,
    ensures
        pool@.contains(r.0),
        pool@.contains(r.1),
        (forall|i: int| 0 <= i < pool@.len() ==> #[trigger] pool@[i] == pool@[0]) ==> r.1 == r.0,
        (exists|i: int, j: int|
            0 <= i < pool@.len() && 0 <= j < pool@.len() && pool@[i] != pool@[j]) ==> r.0 != r.1,
{
    let n = pool.len();
    let i1 = rng.next_below(n);
    let p1 = pool[i1];
    proof {
        assert(pool@.contains(pool@[i1 as int]));
    }
    if n == 1 {
        return (p1, p1);
    }
    if all_entries_equal(pool) {
        return (p1, p1);
    }
    let mut attempts: usize = 0;
    while attempts < 64
        invariant
            n == pool@.len(),
            n > 0,
            pool@.contains(p1),
            !(forall|i: int| 0 <= i < pool@.len() ==> #[trigger] pool@[i] == pool@[0]),
        decreases 64 - attempts,
    {
        let i2 = rng.next_below(n);
        let p2 = pool[i2];
        if p2 != p1 {
            proof {
                assert(pool@.contains(pool@[i2 as int]));
            }
            return (p1, p2);
        }
        attempts = attempts + 1;
    }
    let mut j: usize = 0;
    while j < n
        invariant
            j <= n,
            n == pool@.len(),
            pool@.contains(p1),
            !(forall|i: int| 0 <= i < pool@.len() ==> #[trigger] pool@[i] == pool@[0]),
            forall|t: int| 0 <= t < j ==> #[trigger] pool@[t] == p1,
        decreases n - j,
    {
        if pool[j] != p1 {
            proof {
                assert(pool@.contains(pool@[j as int]));
            }
            return (p1, pool[j]);
        }
        j = j + 1;
    }
    proof {
        assert(false);
    }
    (p1, p1)
}

} // verus!
