//! The random numbers that seed a new board, drawn through `rand`.
use vstd::prelude::*;
use rand::rngs::{OsRng, StdRng};
use rand::{Rng, SeedableRng};

verus! {

/// `rand::rngs::StdRng`, a generator seeded once that never reseeds; the board
/// only carries it from one draw to the next.
#[verifier::external_type_specification]
#[verifier::external_body]
pub struct ExStdRng(rand::rngs::StdRng);

/// `rand::Error`, the error of a generator that could not produce bytes.
#[verifier::external_type_specification]
#[verifier::external_body]
pub struct ExRandError(rand::Error);

/// Calls `SeedableRng::from_rng` for `StdRng` with the operating system's
/// generator `OsRng` as the source of the seed. It returns `Err` when the
/// operating system cannot supply the seed, and does not panic. Whether it
/// succeeds rests on the operating system, so nothing is claimed of the
/// outcome.
#[verifier::external_body]
pub(crate) fn seed_from_os() -> Result<StdRng, rand::Error> {
    StdRng::from_rng(OsRng)
}

/// Calls `Rng::gen_range` on the half-open range `low..high`: its
/// documentation promises a value in that range. It panics when the range is
/// empty, which `requires` rules out; `StdRng` draws its words without ever
/// failing or reseeding. Which value comes is left to chance.
#[verifier::external_body]
pub(crate) fn gen_range(rng: &mut StdRng, low: u8, high: u8) -> (value: u8)
    requires
        low < high,
    ensures
        low <= value < high,
{
    rng.gen_range(low..high)
}

/// A seeded generator of cell values that keeps, as a ghost record, every
/// value it has handed out, in order.
pub struct CellDraws {
    rng: StdRng,
    drawn: Ghost<Seq<u8>>,
}

impl CellDraws {
    /// The values handed out so far, oldest first.
    pub closed spec fn drawn(&self) -> Seq<u8> {
        self.drawn@
    }

    /// A generator seeded by the operating system, with nothing drawn yet;
    /// `None` when the operating system cannot supply the seed.
    pub fn seeded() -> (draws: Option<CellDraws>)
        ensures
            draws matches Some(d) ==> d.drawn() == Seq::<u8>::empty(),
    {
        match seed_from_os() {
            Ok(rng) => Some(CellDraws { rng, drawn: Ghost(Seq::empty()) }),
            Err(_) => None,
        }
    }

    /// Draws a fresh value, 0 or 1, and records it.
    pub fn draw(&mut self) -> (value: u8)
        ensures
            value < 2,
            final(self).drawn() == old(self).drawn().push(value),
    {
        let value = gen_range(&mut self.rng, 0, 2);
        self.drawn = Ghost(self.drawn@.push(value));
        value
    }
}

} // verus!
