use vstd::prelude::*;

use rand::Rng;
use rand_pcg::Mcg128Xsl64;

verus! {

/// The permuted congruential generator that drives every random choice of the library.
#[verifier::external_type_specification]
#[verifier::external_body]
pub struct ExMcg128Xsl64(Mcg128Xsl64);

/// The generator's name in this library.
pub type Pcg = Mcg128Xsl64;

/// `rand::Rng::gen_range` on `usize`: a value drawn from `low` (included) to `high`
/// (excluded). The crate panics when `low >= high`, so that input is excluded. Which
/// value comes out depends on the generator's state and is not stated.
#[verifier::external_body]
pub(crate) fn gen_index(rng: &mut Pcg, low: usize, high: usize) -> (r: usize)
    requires
        low < high,
    ensures
        low <= r < high,
{
    rng.gen_range(low, high)
}

/// `rand::Rng::gen_range` on `i32`: a value drawn from `low` (included) to `high`
/// (excluded). The crate panics when `low >= high`, so that input is excluded. Which
/// value comes out depends on the generator's state and is not stated.
#[verifier::external_body]
pub(crate) fn gen_coordinate(rng: &mut Pcg, low: i32, high: i32) -> (r: i32)
    requires
        low < high,
    ensures
        low <= r < high,
{
    rng.gen_range(low, high)
}

} // verus!
