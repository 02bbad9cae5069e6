//! The generational step: parent selection, breeding, mutation and
//! survivor selection.

use vstd::prelude::*;
use crate::individual::{clamp, Individual};
use crate::population::{dependable, descending_by, survivors, Population};

verus! {

/// Why a generation could not be bred.
#[derive(Clone, Copy, Debug, PartialEq, Eq, Structural)]
pub enum StepError {
    /// The pool holds `available` individuals, fewer than the two parents
    /// that each of the `pairs` children needs.
    NotEnoughParents { pairs: u64, available: usize },
}

/// The mother of the `k`-th child. Parents are taken from the back of the
/// pool, two at a time: the last member is the first mother.
pub open spec fn mother_of(pool: Seq<Individual>, k: int) -> Individual {
    pool[pool.len() - 1 - 2 * k]
}

/// The father of the `k`-th child: the member just in front of its mother.
pub open spec fn father_of(pool: Seq<Individual>, k: int) -> Individual {
    pool[pool.len() - 2 - 2 * k]
}

/// Whether each of `samples` is something that `noise` may return when
/// asked with `rate`.
pub open spec fn drawn_from<N: Fn(i64) -> i64>(noise: N, rate: i64, samples: Seq<i64>) -> bool {
    forall|k: int| 0 <= k < samples.len() ==> call_ensures(noise, (rate,), #[trigger] samples[k])
}

/// The children that come of `samples`: one for each sample, its gene the
/// sample clamped into the mutation bounds.
pub open spec fn bred(samples: Seq<i64>, lower: i64, upper: i64) -> Seq<Individual> {
    Seq::new(samples.len(), |k: int| Individual { value: clamp(samples[k], lower, upper) })
}

/// A population together with the settings by which it breeds.
///
/// `noise` is the source of mutation: asked with a standard deviation, it
/// returns one sample of zero-mean Gaussian noise, as a fixed-point real.
pub struct Evolution<F: Fn(i64) -> Option<i64>, N: Fn(i64) -> i64> {
    pub pool: Population<F>,
    pub noise: N,
    pub n_offsprings: u64,
    pub pair_alpha: i64,
    pub mutate_lower_bound: i64,
    pub mutate_upper_bound: i64,
    pub mutate_rate: i64,
}

impl<F: Fn(i64) -> Option<i64>, N: Fn(i64) -> i64> Evolution<F, N> {
    /// The pool is well formed and the noise source accepts the mutation
    /// rate.
    pub open spec fn wf(&self) -> bool {
        &&& self.pool.wf()
        &&& call_requires(self.noise, (self.mutate_rate,))
    }

    /// Whether `self` and `other` breed by the same settings: everything
    /// but the pool's members is equal.
    pub open spec fn same_settings(&self, other: &Self) -> bool {
        &&& self.pool.fitness == other.pool.fitness
        &&& self.pool.size == other.pool.size
        &&& self.noise == other.noise
        &&& self.n_offsprings == other.n_offsprings
        &&& self.pair_alpha == other.pair_alpha
        &&& self.mutate_lower_bound == other.mutate_lower_bound
        &&& self.mutate_upper_bound == other.mutate_upper_bound
        &&& self.mutate_rate == other.mutate_rate
    }

    /// An evolution over a fresh pool of `pool_size` individuals, each
    /// drawn uniformly at random from `init_lower_bound..init_upper_bound`.
    pub fn new(
        fitness: F,
        noise: N,
        pool_size: usize,
        n_offsprings: u64,
        pair_alpha: i64,
        mutate_lower_bound: i64,
        mutate_upper_bound: i64,
        mutate_rate: i64,
        init_lower_bound: i64,
        init_upper_bound: i64,
    ) -> (evolution: Self)
        requires
            dependable(fitness),
            call_requires(noise, (mutate_rate,)),
            pool_size > 0 ==> init_lower_bound < init_upper_bound,
        ensures
            evolution.wf(),
            evolution.pool.fitness == fitness,
            evolution.pool.size == pool_size,
            evolution.noise == noise,
            evolution.n_offsprings == n_offsprings,
            evolution.pair_alpha == pair_alpha,
            evolution.mutate_lower_bound == mutate_lower_bound,
            evolution.mutate_upper_bound == mutate_upper_bound,
            evolution.mutate_rate == mutate_rate,
            forall|i: int|
                0 <= i < pool_size ==> init_lower_bound <= (
                #[trigger] evolution.pool.individuals[i]).value < init_upper_bound,
    {
        Evolution {
            pool: Population::new(pool_size, fitness, init_lower_bound, init_upper_bound),
            noise,
            n_offsprings,
            pair_alpha,
            mutate_lower_bound,
            mutate_upper_bound,
            mutate_rate,
        }
    }

    /// Parent selection: `n_offsprings` pairs of mother and father, taken
    /// from the back of the pool toward its front, so that the worst
    /// ranked breed first. Fails, and selects nobody, where the pool holds
    /// fewer than two individuals for each pair.
    pub fn parents(&self) -> (outcome: Result<Vec<(Individual, Individual)>, StepError>)
        ensures
            match outcome {
                Ok(pairs) => {
                    &&& 2 * self.n_offsprings <= self.pool.individuals.len()
                    &&& pairs.len() == self.n_offsprings
                    &&& forall|k: int|
                        0 <= k < pairs.len() ==> #[trigger] pairs[k] == (
                            mother_of(self.pool.individuals@, k),
                            father_of(self.pool.individuals@, k),
                        )
                },
                Err(e) => {
                    &&& 2 * self.n_offsprings > self.pool.individuals.len()
                    &&& e == (StepError::NotEnoughParents {
                        pairs: self.n_offsprings,
                        available: self.pool.individuals.len(),
                    })
                },
            },
    {
        let available: usize = self.pool.individuals.len();
        if self.n_offsprings > (available / 2) as u64 {
            return Err(StepError::NotEnoughParents { pairs: self.n_offsprings, available });
        }
        let wanted: usize = self.n_offsprings as usize;
        let mut pairs: Vec<(Individual, Individual)> = Vec::new();
        let mut k: usize = 0;
        while k < wanted
            invariant
                k <= wanted,
                2 * wanted <= available,
                available == self.pool.individuals.len(),
                pairs.len() == k,
                forall|j: int|
                    0 <= j < k ==> #[trigger] pairs[j] == (
                        mother_of(self.pool.individuals@, j),
                        father_of(self.pool.individuals@, j),
                    ),
            decreases wanted - k,
        {
            let mother = self.pool.individuals[available - 1 - 2 * k];
            let father = self.pool.individuals[available - 2 - 2 * k];
            pairs.push((mother, father));
            k += 1;
        }
        Ok(pairs)
    }

    /// One generation. Each selected pair has one child, by
    /// [`Individual::pair`] with the weight `pair_alpha`; the child is
    /// mutated at once, which replaces its gene by clamped noise; then the
    /// children compete with the pool for its places.
    ///
    /// Fails, and changes nothing, exactly where the pool holds fewer
    /// than `2 * n_offsprings` individuals.
    pub fn step(&mut self) -> (outcome: Result<(), StepError>)
        requires
            old(self).wf(),
        ensures
            final(self).wf(),
            final(self).same_settings(old(self)),
            final(self).pool.individuals.len() == old(self).pool.individuals.len(),
            match outcome {
                Ok(_) => {
                    &&& 2 * old(self).n_offsprings <= old(self).pool.individuals.len()
                    &&& descending_by(final(self).pool.individuals@, old(self).pool.score())
                    &&& exists|samples: Seq<i64>|
                        {
                            &&& samples.len() == old(self).n_offsprings
                            &&& drawn_from(old(self).noise, old(self).mutate_rate, samples)
                            &&& final(self).pool.individuals@ == #[trigger] survivors(
                                old(self).pool.individuals@ + bred(
                                    samples,
                                    old(self).mutate_lower_bound,
                                    old(self).mutate_upper_bound,
                                ),
                                old(self).pool.score(),
                                old(self).pool.size as nat,
                            )
                        }
                },
                Err(e) => {
                    &&& 2 * old(self).n_offsprings > old(self).pool.individuals.len()
                    &&& e == (StepError::NotEnoughParents {
                        pairs: old(self).n_offsprings,
                        available: old(self).pool.individuals.len(),
                    })
                    &&& final(self).pool.individuals@ == old(self).pool.individuals@
                },
            },
    {
        let pairs = match self.parents() {
            Ok(pairs) => pairs,
            Err(e) => {
                return Err(e);
            },
        };
        let lower: i64 = self.mutate_lower_bound;
        let upper: i64 = self.mutate_upper_bound;
        let rate: i64 = self.mutate_rate;
        let mut offspring: Vec<Individual> = Vec::new();
        let ghost mut samples: Seq<i64> = Seq::empty();
        let mut k: usize = 0;
        while k < pairs.len()
            invariant
                k <= pairs.len(),
                *self == *old(self),
                rate == self.mutate_rate,
                call_requires(self.noise, (rate,)),
                samples.len() == k,
                drawn_from(self.noise, rate, samples),
                offspring@ == bred(samples, lower, upper),
            decreases pairs.len() - k,
        {
            let (mother, father) = pairs[k];
            let mut child = mother.pair(&father, self.pair_alpha);
            child.mutate(lower, upper, rate, &self.noise);
            proof {
                let sample = choose|sample: i64| #[trigger]
                    call_ensures(self.noise, (rate,), sample) && child.value == clamp(
                        sample,
                        lower,
                        upper,
                    );
                samples = samples.push(sample);
            }
            offspring.push(child);
            k += 1;
        }
        self.pool.replace(offspring);
        Ok(())
    }
}

} // verus!
