//! Random-access benchmarks draw their LBAs from a generator seeded with a
//! fixed value, so that every run touches the same blocks in the same order
//! and a second cached run finds them all in the cache.

use rand::rngs::StdRng;
use rand::{Rng, SeedableRng};
use vstd::prelude::*;

verus! {

/// The generator type of `rand` used for the benchmark LBAs.
#[verifier::external_type_specification]
#[verifier::external_body]
pub struct ExStdRng(StdRng);

/// The value that `Rng::gen_range(0..bound)` returns from a `StdRng` seeded
/// with `seed` after draws with the bounds `earlier`, in that order. `StdRng`
/// is deterministic: its output is a function of the seed and of the draws
/// made so far.
pub uninterp spec fn seeded_draw(seed: u64, earlier: Seq<u64>, bound: u64) -> u64;

/// A seeded generator of LBAs. Besides the generator it records the seed and
/// the bounds of the draws made so far. Only the two trusted methods, `new`
/// and `draw_below`, create or change a generator and its record; no
/// verified code writes the record.
struct LbaGenerator {
    rng: StdRng,
    seed: Ghost<u64>,
    bounds: Ghost<Seq<u64>>,
}

impl LbaGenerator {
    /// The seed the generator was created with.
    closed spec fn seed(&self) -> u64 {
        self.seed@
    }

    /// The bounds of the draws made so far, in order.
    closed spec fn bounds(&self) -> Seq<u64> {
        self.bounds@
    }

    /// `StdRng::seed_from_u64(seed)`: a generator seeded with `seed`, with
    /// no draws made, recorded as such.
    #[verifier::external_body]
    fn new(seed: u64) -> (g: Self)
        ensures
            g.seed() == seed,
            g.bounds() == Seq::<u64>::empty(),
    {
        LbaGenerator { rng: StdRng::seed_from_u64(seed), seed: Ghost(seed), bounds: Ghost(Seq::empty()) }
    }

    /// `Rng::gen_range(0..bound)` on the generator: a value below `bound`,
    /// namely the next draw of the seeded sequence; the draw is recorded.
    #[verifier::external_body]
    fn draw_below(&mut self, bound: u64) -> (r: u64)
        requires
            bound > 0,
        ensures
            r < bound,
            r == seeded_draw(old(self).seed(), old(self).bounds(), bound),
            final(self).seed() == old(self).seed(),
            final(self).bounds() == old(self).bounds().push(bound),
    {
        self.rng.gen_range(0..bound)
    }
}

/// Default seed for reproducibility across runs.
pub const BENCH_SEED: u64 = 0xDEAD_BEEF_CAFE_F00D;

/// Result of a random-access benchmark run.
#[derive(Debug, Clone)]
pub struct RandomResult {
    /// Type of benchmark (read or write).
    pub operation: String,
    /// Whether the cache was active.
    pub cached: bool,
    /// Number of I/O operations performed.
    pub op_count: usize,
    /// Size of each block in bytes.
    pub block_size: usize,
    /// Range of LBAs used (`0..lba_range`).
    pub lba_range: u64,
    /// Total elapsed time in nanoseconds.
    pub elapsed_nanos: u128,
    /// Cache hits (only when cached).
    pub cache_hits: u64,
    /// Cache misses.
    pub cache_misses: u64,
}

impl RandomResult {
    /// Total bytes transferred.
    pub fn total_bytes(&self) -> (n: usize)
        requires
            self.op_count * self.block_size <= usize::MAX,
        ensures
            n == self.op_count * self.block_size,
    {
        self.op_count * self.block_size
    }
}

/// The first `count` draws below `max_lba` of the generator seeded with
/// `seed`.
pub open spec fn random_lbas(count: nat, max_lba: u64, seed: u64) -> Seq<u64> {
    Seq::new(count, |i: int| seeded_draw(seed, Seq::new(i as nat, |j: int| max_lba), max_lba))
}

/// `count` LBAs below `max_lba`, drawn from a generator seeded with `seed`:
/// the `i`-th is the `i`-th draw of that seeded sequence, so equal arguments
/// give equal sequences.
pub fn generate_random_lbas(count: usize, max_lba: u64, seed: u64) -> (r: Vec<u64>)
    requires
        count > 0 ==> max_lba > 0,
    ensures
        r@.len() == count,
        forall|i: int| 0 <= i < count ==> #[trigger] r@[i] < max_lba,
        r@ == random_lbas(count as nat, max_lba, seed),
{
    let mut rng = LbaGenerator::new(seed);
    let mut lbas: Vec<u64> = Vec::with_capacity(count);
    let mut i: usize = 0;
    while i < count
        invariant
            i <= count,
            count > 0 ==> max_lba > 0,
            lbas@.len() == i,
            rng.seed() == seed,
            rng.bounds() == Seq::new(i as nat, |j: int| max_lba),
            forall|j: int| 0 <= j < i ==> #[trigger] lbas@[j] < max_lba,
            forall|j: int|
                0 <= j < i ==> #[trigger] lbas@[j] == seeded_draw(seed, Seq::new(j as nat, |k: int| max_lba), max_lba),
        decreases count - i,
    {
        let lba = rng.draw_below(max_lba);
        lbas.push(lba);
        i = i + 1;
        proof {
            assert(rng.bounds() =~= Seq::new(i as nat, |j: int| max_lba));
        }
    }
    proof {
        assert(lbas@ =~= random_lbas(count as nat, max_lba, seed));
    }
    lbas
}

} // verus!
