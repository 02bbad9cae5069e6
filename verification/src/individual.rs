//! One candidate solution: a single real-valued gene.

use vstd::prelude::*;
use rand::Rng;
use crate::fixed::{
    blend, blend_saturating, lemma_blend_all_first, lemma_blend_all_second,
    lemma_blend_half_is_mean, saturate, HALF, ONE,
};

verus! {

/// Declares `rand::rngs::ThreadRng`, the handle to a thread's random
/// number generator, as a type whose inside is not looked into.
#[verifier::external_type_specification]
#[verifier::external_body]
pub struct ExThreadRng(rand::rngs::ThreadRng);

/// Calls `rand::thread_rng`, which hands out the calling thread's
/// generator. Nothing is claimed of the handle.
#[verifier::external_body]
fn ambient_rng() -> (rng: rand::rngs::ThreadRng) {
    rand::thread_rng()
}

/// Calls `rand::Rng::gen_range` on the half-open range `lower..upper`.
/// The method panics on an empty range, which the precondition excludes;
/// for an integer range it returns `lower` plus an offset below
/// `upper - lower`. Which value is drawn is left open.
#[verifier::external_body]
fn draw_between(rng: &mut rand::rngs::ThreadRng, lower: i64, upper: i64) -> (drawn: i64)
    requires
        lower < upper,
    ensures
        lower <= drawn < upper,
{
    rng.gen_range(lower..upper)
}

/// `x` forced into the interval from `lower` to `upper`: values below
/// `lower` become `lower`, and of the others those above `upper` become
/// `upper`.
pub open spec fn clamp(x: i64, lower: i64, upper: i64) -> i64 {
    if x < lower {
        lower
    } else if x > upper {
        upper
    } else {
        x
    }
}

/// A clamped value lies within ordered bounds.
pub proof fn lemma_clamp_within(x: i64, lower: i64, upper: i64)
    requires
        lower <= upper,
    ensures
        lower <= clamp(x, lower, upper) <= upper,
{
}

/// Computes [`clamp`].
pub fn clamped(x: i64, lower: i64, upper: i64) -> (r: i64)
    ensures
        r == clamp(x, lower, upper),
{
    if x < lower {
        lower
    } else if x > upper {
        upper
    } else {
        x
    }
}

/// A candidate solution. Its gene `value` is a fixed-point real.
#[derive(Clone, Copy, Debug, PartialEq, Eq, Structural)]
pub struct Individual {
    pub value: i64,
}

/// The child of `mother` and `father`: its gene is the weighted mean of
/// theirs, the mother's weighing `alpha` and the father's the rest, and
/// is the nearest `i64` where the mean lies beyond.
pub open spec fn paired(mother: Individual, father: Individual, alpha: i64) -> Individual {
    Individual {
        value: saturate(blend(mother.value as int, father.value as int, alpha as int)),
    }
}

/// With a weight of one the child has the mother's gene, with a weight of
/// zero the father's, and with a weight of one half the mean of the two,
/// rounded down.
pub proof fn lemma_pair_weights(mother: Individual, father: Individual)
    ensures
        paired(mother, father, ONE) == mother,
        paired(mother, father, 0) == father,
        paired(mother, father, HALF).value == (mother.value + father.value) / 2,
{
    lemma_blend_all_first(mother.value as int, father.value as int);
    lemma_blend_all_second(mother.value as int, father.value as int);
    lemma_blend_half_is_mean(mother.value as int, father.value as int);
}

impl Individual {
    /// A fresh individual whose gene is drawn uniformly at random from the
    /// half-open interval `lower_bound..upper_bound`.
    pub fn new(lower_bound: i64, upper_bound: i64) -> (fresh: Individual)
        requires
            lower_bound < upper_bound,
        ensures
            lower_bound <= fresh.value < upper_bound,
    {
        let mut rng = ambient_rng();
        Individual { value: draw_between(&mut rng, lower_bound, upper_bound) }
    }

    /// The child of `self` and `other`: its gene is the weighted mean of the
    /// parents' genes, `self` weighing `alpha` and `other` the rest.
    /// Neither parent changes, and no bounds are enforced.
    pub fn pair(&self, other: &Individual, alpha: i64) -> (child: Individual)
        ensures
            child == paired(*self, *other, alpha),
    {
        Individual { value: blend_saturating(self.value, other.value, alpha) }
    }

    /// Replaces the gene by one sample of `noise`, clamped into the bounds.
    ///
    /// `noise` is asked once, with `rate`, for a sample of zero-mean noise
    /// whose standard deviation is `rate`. The previous gene is discarded,
    /// not perturbed.
    pub fn mutate<N: Fn(i64) -> i64>(
        &mut self,
        lower_bound: i64,
        upper_bound: i64,
        rate: i64,
        noise: &N,
    )
        requires
            call_requires(*noise, (rate,)),
        ensures
            exists|sample: i64| #[trigger]
                call_ensures(*noise, (rate,), sample) && final(self).value == clamp(
                    sample,
                    lower_bound,
                    upper_bound,
                ),
            lower_bound <= upper_bound ==> lower_bound <= final(self).value <= upper_bound,
    {
        let sample: i64 = noise(rate);
        self.value = clamped(sample, lower_bound, upper_bound);
    }
}

} // verus!
