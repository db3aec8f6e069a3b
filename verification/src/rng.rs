use vstd::prelude::*;
use rand::rngs::{StdRng, ThreadRng};
use rand::{Rng, SeedableRng};

verus! {

/// The seedable generator of `rand` that drives map generation.
#[verifier::external_type_specification]
#[verifier::external_body]
pub struct ExStdRng(StdRng);

/// The thread-local generator of `rand` that drives the robots' choices.
#[verifier::external_type_specification]
#[verifier::external_body]
pub struct ExThreadRng(ThreadRng);

/// One request made of a random generator: what was asked, and what came back.
#[derive(Clone, Copy, Debug, PartialEq, Eq, Structural)]
pub enum Draw {
    /// An index below `n`; `r` came back.
    Below { n: usize, r: usize },
    /// A value from `lo` to `hi` inclusive; `value` came back.
    Between { lo: u32, hi: u32, value: u32 },
    /// A fair coin; `heads` came back.
    Coin { heads: bool },
}

/// The generator that scatters deposits, with the seed it was made from and
/// the record of every request made of it (`seed` and `draws`, ghost
/// bookkeeping that takes no room at run time).
pub struct MapRng {
    rng: StdRng,
    seed: Ghost<u64>,
    draws: Ghost<Seq<Draw>>,
}

/// The generator of the robots' random choices, with the record of every
/// request made of it.
pub struct RobotRng {
    rng: ThreadRng,
    draws: Ghost<Seq<Draw>>,
}

/// `StdRng::seed_from_u64`: the generator made from `seed`, recorded as its
/// seed, with nothing asked of it yet. Nothing else is stated of its state.
#[verifier::external_body]
fn seeded_rng(seed: u64) -> (r: MapRng)
    ensures
        r.seed() == seed,
        r.log() == Seq::<Draw>::empty(),
{
    MapRng { rng: StdRng::seed_from_u64(seed), seed: Ghost(seed), draws: Ghost(Seq::empty()) }
}

/// `rand::thread_rng`: the thread's generator. Nothing is stated of it.
#[verifier::external_body]
fn new_thread_rng() -> ThreadRng {
    rand::thread_rng()
}

impl MapRng {
    /// Every request made of the generator so far, in order.
    pub closed spec fn log(&self) -> Seq<Draw> {
        self.draws@
    }

    /// The seed the generator was made from.
    pub closed spec fn seed(&self) -> u64 {
        self.seed@
    }

    /// A generator seeded with `seed`, with nothing asked of it yet.
    pub fn seeded(seed: u64) -> (r: MapRng)
        ensures
            r.seed() == seed,
            r.log() == Seq::<Draw>::empty(),
    {
        seeded_rng(seed)
    }
}

impl RobotRng {
    /// Every request made of the generator so far, in order.
    pub closed spec fn log(&self) -> Seq<Draw> {
        self.draws@
    }

    /// The thread's generator, with nothing asked of it yet.
    pub fn new() -> (r: RobotRng)
        ensures
            r.log() == Seq::<Draw>::empty(),
    {
        RobotRng { rng: new_thread_rng(), draws: Ghost(Seq::empty()) }
    }
}

/// `Rng::gen_range(0..n)` on the map generator: some index below `n`. The
/// record gains this request.
#[verifier::external_body]
pub(crate) fn std_rng_below(rng: &mut MapRng, n: usize) -> (r: usize)
    requires
        n > 0,
    ensures
        r < n,
        final(rng).log() == old(rng).log().push(Draw::Below { n, r }),
        final(rng).seed() == old(rng).seed(),
{
    rng.rng.gen_range(0..n)
}

/// `Rng::gen_range(lo..=hi)` on the map generator: some value from `lo` to
/// `hi` inclusive. The record gains this request.
#[verifier::external_body]
pub(crate) fn std_rng_between(rng: &mut MapRng, lo: u32, hi: u32) -> (r: u32)
    requires
        lo <= hi,
    ensures
        lo <= r <= hi,
        final(rng).log() == old(rng).log().push(Draw::Between { lo, hi, value: r }),
        final(rng).seed() == old(rng).seed(),
{
    rng.rng.gen_range(lo..=hi)
}

/// `Rng::gen_ratio(1, 2)` on the map generator: a fair coin. Either outcome
/// is possible; the record gains this request.
#[verifier::external_body]
pub(crate) fn std_rng_coin(rng: &mut MapRng) -> (r: bool)
    ensures
        final(rng).log() == old(rng).log().push(Draw::Coin { heads: r }),
        final(rng).seed() == old(rng).seed(),
{
    rng.rng.gen_ratio(1, 2)
}

/// `Rng::gen_range(0..n)` on the robots' generator: some index below `n`.
/// The record gains this request.
#[verifier::external_body]
pub(crate) fn thread_rng_below(rng: &mut RobotRng, n: usize) -> (r: usize)
    requires
        n > 0,
    ensures
        r < n,
        final(rng).log() == old(rng).log().push(Draw::Below { n, r }),
{
    rng.rng.gen_range(0..n)
}

} // verus!
