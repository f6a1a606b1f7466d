//! The random-number generators the game draws from: a seeded ChaCha8 stream
//! for world generation, and the thread-local generator for encounters.

use rand::rngs::ThreadRng;
use rand::Rng;
use rand::SeedableRng;
use rand_chacha::ChaCha8Rng;
use vstd::prelude::*;

verus! {

#[verifier::external_type_specification]
#[verifier::external_body]
pub struct ExChaCha8Rng(ChaCha8Rng);

/// `ChaCha8Rng::seed_from_u64`: a ChaCha8 generator whose stream is fixed by
/// `seed`. Nothing is claimed of the state it returns.
#[verifier::external_body]
pub fn seeded(seed: u64) -> ChaCha8Rng {
    ChaCha8Rng::seed_from_u64(seed)
}

/// `Rng::gen_range(0..n)` on a `usize` range: a draw below `n`, advancing the
/// generator (the range must not be empty, or the call panics). Which value
/// comes out depends on the generator's state, of which nothing is claimed.
#[verifier::external_body]
pub fn below(rng: &mut ChaCha8Rng, n: usize) -> (r: usize)
    requires
        n > 0,
    ensures
        r < n,
{
    rng.gen_range(0..n)
}

/// `Rng::gen_range(0..n)` on an `i32` range: a draw in `0..n`, advancing the
/// generator (the range must not be empty, or the call panics). Which value
/// comes out depends on the generator's state, of which nothing is claimed.
#[verifier::external_body]
pub fn below_i32(rng: &mut ChaCha8Rng, n: i32) -> (r: i32)
    requires
        n > 0,
    ensures
        0 <= r < n,
{
    rng.gen_range(0..n)
}

#[verifier::external_type_specification]
#[verifier::external_body]
pub struct ExThreadRng(ThreadRng);

/// `rand::thread_rng`: a handle on the thread-local generator, which the
/// operating system seeds the first time a thread asks (and which panics if
/// the operating system cannot supply a seed, a failure no argument can rule
/// out). Nothing is claimed of its state.
#[verifier::external_body]
pub fn thread_rng() -> ThreadRng {
    rand::thread_rng()
}

/// `Rng::gen_range(0..n)` on a `usize` range of the thread generator: a draw
/// below `n` (the range must not be empty, or the call panics).
#[verifier::external_body]
pub fn thread_below(rng: &mut ThreadRng, n: usize) -> (r: usize)
    requires
        n > 0,
    ensures
        r < n,
{
    rng.gen_range(0..n)
}

/// `Rng::gen_range(lo..hi)` on a `u32` range of the thread generator: a draw
/// in `lo..hi` (the range must not be empty, or the call panics).
#[verifier::external_body]
pub fn thread_range_u32(rng: &mut ThreadRng, lo: u32, hi: u32) -> (r: u32)
    requires
        lo < hi,
    ensures
        lo <= r < hi,
{
    rng.gen_range(lo..hi)
}

/// `rand::random::<u32>()`: a draw from the thread generator (see
/// `thread_rng` for when that panics), which may be any `u32`.
#[verifier::external_body]
pub fn random_u32() -> u32 {
    rand::random::<u32>()
}

} // verus!
