use vstd::prelude::*;
use rand::Rng;

verus! {

/// Source of the random draws that drive the evolutionary loop: either the
/// process-wide entropy of the `rand` crate, or a deterministic generator
/// seeded once, so that a whole run can be replayed draw for draw.
pub enum RandomSource {
    System,
    Seeded { state: u64 },
}

/// One step of the xorshift64 generator: the state that follows `s`.
pub open spec fn xorshift_step(s: u64) -> u64 {
    let a = s ^ (s << 13u64);
    let b = a ^ (a >> 7u64);
    b ^ (b << 17u64)
}

/// The index in `0 .. n` that a seeded source draws when its state is `s`.
pub open spec fn seeded_draw(s: u64, n: usize) -> usize
    recommends
        n > 0,
{
    (xorshift_step(s) % (n as u64)) as usize
}

fn xorshift_next(s: u64) -> (r: u64)
    ensures
        r == xorshift_step(s),
{
    let a = s ^ (s << 13u64);
    let b = a ^ (a >> 7u64);
    b ^ (b << 17u64)
}

/// Relies on rand::Rng::gen_range, on rand::thread_rng(): for the non-empty
/// range `0..n` it returns a uniformly distributed value of that range.
#[verifier::external_body]
fn system_index(n: usize) -> (r: usize)
    requires
        n > 0,
    ensures
        r < n,
{
    rand::thread_rng().gen_range(0..n)
}

impl RandomSource {
    /// A deterministic source. A zero seed is replaced by a fixed non-zero
    /// one, since the all-zero state is a fixed point of the generator.
    pub fn seeded(seed: u64) -> (r: RandomSource)
        ensures
            r is Seeded,
            seed != 0 ==> r->state == seed,
    {
        if seed == 0 {
            RandomSource::Seeded { state: 0x9E3779B97F4A7C15u64 }
        } else {
            RandomSource::Seeded { state: seed }
        }
    }

    /// Draw one index uniformly from `0 .. n`. A system source stays a system
    /// source and nothing more is known of its draw; a seeded source steps its
    /// state deterministically and its draw is a function of the old state.
    pub fn next_below(&mut self, n: usize) -> (r: usize)
        requires
            n > 0,
        ensures
            r < n,
            *old(self) is System ==> *final(self) is System,
            *old(self) is Seeded ==> *final(self) is Seeded
                && final(self)->state == xorshift_step(old(self)->state)
                && r == seeded_draw(old(self)->state, n),
    {
        match self {
            RandomSource::System => system_index(n),
            RandomSource::Seeded { state } => {
                let next = xorshift_next(*state);
                *state = next;
                let m: u64 = next % (n as u64);
                m as usize
            },
        }
    }
}

} // verus!
