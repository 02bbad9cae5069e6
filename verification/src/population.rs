//! A population of fixed size, and the selection of its survivors.

use vstd::prelude::*;
use crate::individual::Individual;
use crate::ranking::{
    comparable, descending, lemma_ranked_descending, lemma_ranked_permutes, lemma_ranked_sorted,
    lemma_slot, outranks, rank, ranked, slot, sorted, Scored,
};

verus! {

/// The score that `fitness` gives to each gene: whatever a call of it
/// returns.
pub open spec fn score_of<F: Fn(i64) -> Option<i64>>(fitness: F) -> spec_fn(i64) -> Option<i64> {
    |value: i64| choose|s: Option<i64>| call_ensures(fitness, (value,), s)
}

/// Whether `fitness` is a function in the mathematical sense: it accepts
/// every gene, and what it returns depends on the gene alone.
pub open spec fn dependable<F: Fn(i64) -> Option<i64>>(fitness: F) -> bool {
    &&& forall|value: i64| #[trigger] call_requires(fitness, (value,))
    &&& forall|value: i64, s: Option<i64>| #[trigger]
        call_ensures(fitness, (value,), s) ==> s == score_of(fitness)(value)
}

/// Each individual of `all` with its score, in the same order.
pub open spec fn scored(all: Seq<Individual>, score: spec_fn(i64) -> Option<i64>) -> Seq<Scored> {
    all.map_values(|x: Individual| Scored { individual: x, score: score(x.value) })
}

/// The individuals of `entries`, in the same order.
pub open spec fn members(entries: Seq<Scored>) -> Seq<Individual> {
    entries.map_values(|e: Scored| e.individual)
}

/// The first `size` members of the ranking of `all` by `score`, or the
/// whole ranking where it is shorter.
pub open spec fn survivors(
    all: Seq<Individual>,
    score: spec_fn(i64) -> Option<i64>,
    size: nat,
) -> Seq<Individual> {
    let order = members(ranked(scored(all, score)));
    if size <= order.len() {
        order.take(size as int)
    } else {
        order
    }
}

/// No member's fitness is comparable with and less than its successor's.
pub open spec fn descending_by(order: Seq<Individual>, score: spec_fn(i64) -> Option<i64>) -> bool {
    forall|i: int, j: int|
        0 <= i && j == i + 1 && j < order.len() ==> !outranks(
            score((#[trigger] order[j]).value),
            score((#[trigger] order[i]).value),
        )
}

/// No member's fitness is comparable with and less than that of any
/// later member.
pub open spec fn sorted_by(order: Seq<Individual>, score: spec_fn(i64) -> Option<i64>) -> bool {
    forall|i: int, j: int|
        0 <= i < j < order.len() ==> !outranks(
            score((#[trigger] order[j]).value),
            score((#[trigger] order[i]).value),
        )
}

/// Every member's fitness is comparable.
pub open spec fn comparable_by(all: Seq<Individual>, score: spec_fn(i64) -> Option<i64>) -> bool {
    forall|i: int| 0 <= i < all.len() ==> score((#[trigger] all[i]).value) is Some
}

/// Ranking the scored members of `all` keeps each score with its
/// individual and rearranges the individuals.
proof fn lemma_ranked_members(all: Seq<Individual>, score: spec_fn(i64) -> Option<i64>)
    ensures
        ranked(scored(all, score)).len() == all.len(),
        forall|i: int|
            0 <= i < all.len() ==> (#[trigger] ranked(scored(all, score))[i]).score == score(
                ranked(scored(all, score))[i].individual.value,
            ),
        members(ranked(scored(all, score))).to_multiset() == all.to_multiset(),
    decreases all.len(),
{
    broadcast use vstd::seq_lib::group_to_multiset_ensures;

    if all.len() > 0 {
        let entries = scored(all, score);
        let before = ranked(entries.drop_last());
        let at = slot(before, entries.last()) as int;
        assert(entries.drop_last() == scored(all.drop_last(), score));
        lemma_ranked_members(all.drop_last(), score);
        lemma_slot(before, entries.last());
        assert(members(before.insert(at, entries.last())) == members(before).insert(
            at,
            all.last(),
        ));
        assert(all.drop_last().push(all.last()) == all);
    } else {
        assert(members(ranked(scored(all, score))) == all);
    }
}

/// What survivor selection yields: as many members as there are places,
/// or all where there are fewer; nobody who was not in the pool; nobody
/// with a fitness comparable with and less than his successor's; and,
/// where every fitness is comparable, nobody less fit than anyone behind
/// him.
pub proof fn lemma_survivors(all: Seq<Individual>, score: spec_fn(i64) -> Option<i64>, size: nat)
    ensures
        survivors(all, score, size).len() == if size <= all.len() {
            size
        } else {
            all.len()
        },
        survivors(all, score, size).to_multiset().subset_of(all.to_multiset()),
        size >= all.len() ==> survivors(all, score, size).to_multiset() == all.to_multiset(),
        descending_by(survivors(all, score, size), score),
        comparable_by(all, score) ==> sorted_by(survivors(all, score, size), score),
{
    broadcast use vstd::seq_lib::group_to_multiset_ensures;

    let entries = scored(all, score);
    let order = ranked(entries);
    let kept = survivors(all, score, size);
    lemma_ranked_members(all, score);
    lemma_ranked_descending(entries);
    if size <= order.len() {
        let rest = members(order).skip(size as int);
        assert(kept + rest == members(order));
        vstd::seq_lib::lemma_multiset_commutative(kept, rest);
    }
    assert forall|i: int, j: int| 0 <= i && j == i + 1 && j < kept.len() implies !outranks(
        score((#[trigger] kept[j]).value),
        score((#[trigger] kept[i]).value),
    ) by {
        assert(kept[i] == order[i].individual);
        assert(kept[j] == order[j].individual);
    }
    if comparable_by(all, score) {
        assert forall|i: int| 0 <= i < entries.len() implies (#[trigger] entries[i]).score is Some by {
            assert(entries[i].score == score(all[i].value));
        }
        lemma_ranked_sorted(entries);
        assert forall|i: int, j: int| 0 <= i < j < kept.len() implies !outranks(
            score((#[trigger] kept[j]).value),
            score((#[trigger] kept[i]).value),
        ) by {
            assert(kept[i] == order[i].individual);
            assert(kept[j] == order[j].individual);
        }
    }
}

/// Asks `fitness` for the score of each individual, once.
fn score_all<F: Fn(i64) -> Option<i64>>(all: &Vec<Individual>, fitness: &F) -> (entries: Vec<
    Scored,
>)
    requires
        dependable(*fitness),
    ensures
        entries@ == scored(all@, score_of(*fitness)),
{
    let mut entries: Vec<Scored> = Vec::new();
    let mut i: usize = 0;
    while i < all.len()
        invariant
            i <= all.len(),
            dependable(*fitness),
            entries@ == scored(all@.take(i as int), score_of(*fitness)),
        decreases all.len() - i,
    {
        let individual = all[i];
        let score = fitness(individual.value);
        proof {
            assert(all@.take(i + 1) == all@.take(i as int).push(individual));
            assert(scored(all@.take(i + 1), score_of(*fitness)) == entries@.push(
                Scored { individual, score },
            ));
        }
        entries.push(Scored { individual, score });
        i += 1;
    }
    assert(all@.take(all.len() as int) == all@);
    entries
}

/// The individuals of the first `size` entries, or of all where there
/// are fewer.
fn leading_members(order: &Vec<Scored>, size: usize) -> (kept: Vec<Individual>)
    ensures
        kept@ == if size <= order.len() {
            members(order@).take(size as int)
        } else {
            members(order@)
        },
{
    let mut kept: Vec<Individual> = Vec::new();
    let mut k: usize = 0;
    while k < order.len() && k < size
        invariant
            k <= order.len(),
            k <= size,
            kept@ == members(order@).take(k as int),
        decreases order.len() - k,
    {
        assert(members(order@).take(k + 1) == members(order@).take(k as int).push(
            order[k as int].individual,
        ));
        kept.push(order[k].individual);
        k += 1;
    }
    assert(members(order@).take(order.len() as int) == members(order@));
    kept
}

/// A pool of individuals with a fitness function to rank them by, and
/// the number of individuals that it is kept at.
///
/// The fitness function maps a gene to its fitness, both fixed-point
/// reals; it returns `None` for a fitness that cannot be compared.
pub struct Population<F: Fn(i64) -> Option<i64>> {
    pub fitness: F,
    pub individuals: Vec<Individual>,
    pub size: usize,
}

impl<F: Fn(i64) -> Option<i64>> Population<F> {
    /// The fitness function is dependable and the pool is at its size.
    pub open spec fn wf(&self) -> bool {
        &&& dependable(self.fitness)
        &&& self.individuals.len() == self.size
    }

    /// The score of each gene under this population's fitness function.
    pub open spec fn score(&self) -> spec_fn(i64) -> Option<i64> {
        score_of(self.fitness)
    }

    /// A population of `size` individuals, each drawn uniformly at random
    /// from `init_lower_bound..init_upper_bound`, in the order drawn.
    pub fn new(size: usize, fitness: F, init_lower_bound: i64, init_upper_bound: i64) -> (pool:
        Self)
        requires
            dependable(fitness),
            size > 0 ==> init_lower_bound < init_upper_bound,
        ensures
            pool.wf(),
            pool.size == size,
            pool.fitness == fitness,
            forall|i: int|
                0 <= i < size ==> init_lower_bound <= (#[trigger] pool.individuals[i]).value
                    < init_upper_bound,
    {
        let mut individuals: Vec<Individual> = Vec::new();
        let mut made: usize = 0;
        while made < size
            invariant
                made <= size,
                size > 0 ==> init_lower_bound < init_upper_bound,
                individuals.len() == made,
                forall|i: int|
                    0 <= i < made ==> init_lower_bound <= (#[trigger] individuals[i]).value
                        < init_upper_bound,
            decreases size - made,
        {
            individuals.push(Individual::new(init_lower_bound, init_upper_bound));
            made += 1;
        }
        Population { fitness, individuals, size }
    }

    /// The first member of the pool, which after any [`Self::replace`] is
    /// the fittest; `None` for an empty pool.
    pub fn best(&self) -> (top: Option<Individual>)
        ensures
            top == if self.individuals.len() > 0 {
                Some(self.individuals[0])
            } else {
                None
            },
    {
        if self.individuals.len() > 0 {
            Some(self.individuals[0])
        } else {
            None
        }
    }

    /// Survivor selection: the offspring join the pool behind its members,
    /// all are ranked by descending fitness, and the first `size` of them
    /// stay.
    pub fn replace(&mut self, offspring: Vec<Individual>)
        requires
            old(self).wf(),
        ensures
            final(self).wf(),
            final(self).size == old(self).size,
            final(self).fitness == old(self).fitness,
            final(self).individuals@ == survivors(
                old(self).individuals@ + offspring@,
                old(self).score(),
                old(self).size as nat,
            ),
            final(self).individuals.len() == old(self).size,
            final(self).individuals@.to_multiset().subset_of(
                (old(self).individuals@ + offspring@).to_multiset(),
            ),
            descending_by(final(self).individuals@, old(self).score()),
            comparable_by(old(self).individuals@ + offspring@, old(self).score()) ==> sorted_by(
                final(self).individuals@,
                old(self).score(),
            ),
    {
        let mut offspring = offspring;
        self.individuals.append(&mut offspring);
        let entries = score_all(&self.individuals, &self.fitness);
        let order = rank(&entries);
        proof {
            lemma_survivors(self.individuals@, self.score(), self.size as nat);
            lemma_ranked_permutes(entries@);
        }
        self.individuals = leading_members(&order, self.size);
    }
}

} // verus!
