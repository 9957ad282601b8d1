//! Randomness helpers.  These are the only places where the crate calls
//! into the `rand` crate; everything downstream of them is verified for
//! every value they may hand back.

use vstd::prelude::*;

verus! {

/// Draws a fresh upper-cased alphanumeric room id of the given length.
///
/// Relies on `rand::distributions::Alphanumeric`: sampling it yields one
/// ASCII alphanumeric byte per draw, so taking `length` draws and
/// upper-casing them gives a string of exactly `length` characters.
/// Nothing more is assumed of the result: it is random.
#[verifier::external_body]
pub fn generate_rand_string(length: usize) -> (r: String)
    ensures
        r@.len() == length as int,
{
    let id: String = rand::Rng::sample_iter(
        rand::thread_rng(),
        &rand::distributions::Alphanumeric,
    ).take(length).map(char::from).collect();
    id.to_ascii_uppercase()
}

/// Picks a uniformly random index below `n`.
///
/// Relies on `rand::Rng::gen_range`: on the non-empty range `0..n` it
/// returns a value inside the range and does not panic.  The choice itself
/// is random, so callers may assume nothing beyond the bound.
#[verifier::external_body]
pub(crate) fn pick_index(n: usize) -> (r: usize)
    requires
        n > 0,
    ensures
        r < n,
{
    rand::Rng::gen_range(&mut rand::thread_rng(), 0..n)
}

} // verus!
