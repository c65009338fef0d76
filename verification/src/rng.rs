//! The library's only calls into the `rand` crate, each behind a
//! trusted contract. Nothing is assumed about which values come out
//! beyond the bounds the crate documents.

use vstd::prelude::*;
use rand::Rng;

verus! {

#[verifier::external_type_specification]
#[verifier::external_body]
pub struct ExThreadRng(rand::rngs::ThreadRng);

/// Relies on `rand::thread_rng`: a handle to the thread-local
/// generator. Nothing is assumed of the values it will produce. First
/// initialization can panic if the operating system's entropy source
/// fails, an environmental failure no argument can exclude.
#[verifier::external_body]
pub fn fresh_rng() -> rand::rngs::ThreadRng {
    rand::thread_rng()
}

/// Relies on `rand::Rng::gen_range` over `lo..hi`: a value drawn from
/// the half-open range, which is all the crate promises of any single
/// draw. `gen_range` panics on an empty range, so one is excluded
/// here; the generator's periodic reseeding can also panic if the
/// operating system's entropy source fails, an environmental failure
/// no argument can exclude.
#[verifier::external_body]
pub fn rand_range(rng: &mut rand::rngs::ThreadRng, lo: i64, hi: i64) -> (r: i64)
    requires
        lo < hi,
    ensures
        lo <= r < hi,
{
    rng.gen_range(lo..hi)
}

} // verus!
