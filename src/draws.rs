use vstd::prelude::*;
use rand::Rng;
use rand::SeedableRng;

verus! {

/// A source of uniform random draws, handed to the rewriting engine so that
/// rule selection can be reproduced or replaced.
pub trait DrawSource {
    /// The values handed out so far, oldest first.
    spec fn history(&self) -> Seq<u32>;

    /// A value below `bound`, recorded at the end of the history.
    fn draw(&mut self, bound: u32) -> (r: u32)
        requires
            bound > 0,
        ensures
            r < bound,
            final(self).history() == old(self).history().push(r),
    ;
}

#[verifier::external_type_specification]
#[verifier::external_body]
pub struct ExStdRng(rand::rngs::StdRng);

/// Relies on `SeedableRng::from_rng` for `StdRng` with `OsRng`: a generator
/// seeded by the operating system, or `None` when the system supplies no
/// entropy (reported as an error, not a panic).
#[verifier::external_body]
fn rng_from_os() -> (r: Option<rand::rngs::StdRng>) {
    rand::rngs::StdRng::from_rng(rand::rngs::OsRng).ok()
}

/// Relies on `SeedableRng::seed_from_u64` for `StdRng`: a generator whose
/// output is fixed by `seed`.
#[verifier::external_body]
fn rng_from_seed(seed: u64) -> (r: rand::rngs::StdRng) {
    rand::rngs::StdRng::seed_from_u64(seed)
}

/// Relies on `Rng::gen_range` over `0..bound`: a value of that range, which is
/// not empty.
#[verifier::external_body]
fn rng_below(rng: &mut rand::rngs::StdRng, bound: u32) -> (r: u32)
    requires
        bound > 0,
    ensures
        r < bound,
{
    rng.gen_range(0..bound)
}

/// Uniform draws from a pseudo-random generator.
pub struct RandomDraws {
    rng: rand::rngs::StdRng,
    drawn: Ghost<Seq<u32>>,
}

impl RandomDraws {
    /// A generator seeded from the operating system's entropy, or `None` when
    /// the system supplies none.
    pub fn from_os() -> (r: Option<RandomDraws>) {
        match rng_from_os() {
            Some(rng) => Some(RandomDraws { rng, drawn: Ghost(Seq::empty()) }),
            None => None,
        }
    }

    /// A generator whose draws are reproduced by the same `seed`.
    pub fn seeded(seed: u64) -> (r: RandomDraws) {
        RandomDraws { rng: rng_from_seed(seed), drawn: Ghost(Seq::empty()) }
    }
}

impl DrawSource for RandomDraws {
    closed spec fn history(&self) -> Seq<u32> {
        self.drawn@
    }

    fn draw(&mut self, bound: u32) -> (r: u32) {
        let r = rng_below(&mut self.rng, bound);
        self.drawn = Ghost(self.drawn@.push(r));
        r
    }
}

/// Draws replayed from a fixed list: draw `i` is `values[i]` reduced below the
/// bound, or 0 once the list is used up. Every value handed out is kept.
pub struct ReplayDraws {
    values: Vec<u32>,
    drawn: Vec<u32>,
}

impl ReplayDraws {
    /// A source that replays `values`, with nothing drawn yet.
    pub fn new(values: Vec<u32>) -> (r: ReplayDraws)
        ensures
            r.history() == Seq::<u32>::empty(),
            r.values() == values@,
    {
        ReplayDraws { values, drawn: Vec::new() }
    }

    /// The values to replay.
    pub closed spec fn values(&self) -> Seq<u32> {
        self.values@
    }

    /// How many draws were taken.
    pub fn taken(&self) -> (r: usize)
        ensures
            r == self.history().len(),
    {
        self.drawn.len()
    }
}

impl DrawSource for ReplayDraws {
    closed spec fn history(&self) -> Seq<u32> {
        self.drawn@
    }

    fn draw(&mut self, bound: u32) -> (r: u32) {
        let i = self.drawn.len();
        let r = if i < self.values.len() {
            self.values[i] % bound
        } else {
            0
        };
        self.drawn.push(r);
        r
    }
}

} // verus!
