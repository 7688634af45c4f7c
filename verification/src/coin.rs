//! What the library takes from the `rand` crate: a fair coin.
//!
//! Nothing in this file is proved. Each item states what the rest of the
//! library believes of a function or a type of `rand`.

use rand::distributions::{Bernoulli, BernoulliError, Distribution};
use rand::rngs::ThreadRng;
use vstd::prelude::*;

verus! {

/// `rand::distributions::Bernoulli`: a distribution over `bool`. Nothing of
/// its inside is used.
#[verifier::external_type_specification]
#[verifier::external_body]
pub struct ExBernoulli(Bernoulli);

/// `rand::distributions::BernoulliError`: why a distribution could not be
/// made.
#[verifier::external_type_specification]
#[verifier::external_body]
pub struct ExBernoulliError(BernoulliError);

/// `rand::rngs::ThreadRng`: a handle on the thread's random number generator.
#[verifier::external_type_specification]
#[verifier::external_body]
pub struct ExThreadRng(ThreadRng);

/// `Bernoulli::from_ratio` makes the distribution that gives `true` with
/// probability `numerator / denominator`. It succeeds exactly when the ratio
/// is a probability: the denominator is not 0 and the numerator does not
/// exceed it.
pub assume_specification[ Bernoulli::from_ratio ](
    numerator: u32,
    denominator: u32,
) -> (res: Result<Bernoulli, BernoulliError>)
    ensures
        res.is_ok() == (numerator <= denominator && denominator != 0),
;

/// `rand::thread_rng` hands out the generator of the calling thread, which
/// the system seeds when the thread first asks for it. Nothing is claimed of
/// the handle. Where the system has no randomness to give, the first call on
/// a thread panics.
pub assume_specification[ rand::thread_rng ]() -> (rng: ThreadRng)
;

/// `Distribution::sample` on a `Bernoulli`: one draw from `dist` with the
/// generator `rng`. The outcome is a matter of chance, so nothing is claimed
/// of it.
#[verifier::external_body]
pub(crate) fn sample(dist: &Bernoulli, rng: &mut ThreadRng) -> (alive: bool) {
    dist.sample(rng)
}

} // verus!
