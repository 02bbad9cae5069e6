//! Ranking scored individuals, best first.
//!
//! A score is an `Option<i64>`: `Some` holds a fitness as a fixed-point
//! real, `None` is a fitness that cannot be compared with any other. One
//! individual is moved in front of another only where its score is known
//! to be greater, so an incomparable score never overtakes anything and
//! is never overtaken.

use vstd::prelude::*;
use crate::individual::Individual;

verus! {

/// An individual together with the score that its gene was given.
#[derive(Clone, Copy, Debug, PartialEq, Eq)]
pub struct Scored {
    pub individual: Individual,
    pub score: Option<i64>,
}

/// Whether the score `a` is comparable with `b` and strictly greater.
pub open spec fn outranks(a: Option<i64>, b: Option<i64>) -> bool {
    match (a, b) {
        (Some(x), Some(y)) => x > y,
        _ => false,
    }
}

/// Where a newcomer enters a ranked sequence: behind the last member that
/// it does not outrank, or in front of all if it outranks every member
/// back to the front.
pub open spec fn slot(order: Seq<Scored>, newcomer: Scored) -> nat
    decreases order.len(),
{
    if order.len() == 0 {
        0
    } else if outranks(newcomer.score, order.last().score) {
        slot(order.drop_last(), newcomer)
    } else {
        order.len()
    }
}

/// The stable ranking of `all` by descending score: the members enter one
/// by one in their given order, each at its [`slot`].
pub open spec fn ranked(all: Seq<Scored>) -> Seq<Scored>
    decreases all.len(),
{
    if all.len() == 0 {
        all
    } else {
        let before = ranked(all.drop_last());
        before.insert(slot(before, all.last()) as int, all.last())
    }
}

/// No member is outranked by its successor.
pub open spec fn descending(order: Seq<Scored>) -> bool {
    forall|i: int, j: int|
        0 <= i && j == i + 1 && j < order.len() ==> !outranks(
            (#[trigger] order[j]).score,
            (#[trigger] order[i]).score,
        )
}

/// No member is outranked by any later member.
pub open spec fn sorted(order: Seq<Scored>) -> bool {
    forall|i: int, j: int|
        0 <= i < j < order.len() ==> !outranks(
            (#[trigger] order[j]).score,
            (#[trigger] order[i]).score,
        )
}

/// Every member has a comparable score.
pub open spec fn comparable(all: Seq<Scored>) -> bool {
    forall|i: int| 0 <= i < all.len() ==> (#[trigger] all[i]).score is Some
}

/// The newcomer outranks everyone from its slot on, and not the member
/// just in front of the slot.
pub proof fn lemma_slot(order: Seq<Scored>, newcomer: Scored)
    ensures
        slot(order, newcomer) <= order.len(),
        forall|k: int|
            slot(order, newcomer) <= k < order.len() ==> outranks(
                newcomer.score,
                (#[trigger] order[k]).score,
            ),
        slot(order, newcomer) > 0 ==> !outranks(
            newcomer.score,
            order[slot(order, newcomer) - 1].score,
        ),
    decreases order.len(),
{
    if order.len() > 0 && outranks(newcomer.score, order.last().score) {
        lemma_slot(order.drop_last(), newcomer);
        assert forall|k: int| slot(order, newcomer) <= k < order.len() implies outranks(
            newcomer.score,
            (#[trigger] order[k]).score,
        ) by {
            if k < order.len() - 1 {
                assert(order[k] == order.drop_last()[k]);
            }
        }
    }
}

/// Ranking rearranges: the ranking holds each member as often as the
/// input does, and so is as long.
pub proof fn lemma_ranked_permutes(all: Seq<Scored>)
    ensures
        ranked(all).to_multiset() == all.to_multiset(),
        ranked(all).len() == all.len(),
    decreases all.len(),
{
    broadcast use vstd::seq_lib::group_to_multiset_ensures;

    if all.len() > 0 {
        let before = ranked(all.drop_last());
        lemma_ranked_permutes(all.drop_last());
        lemma_slot(before, all.last());
        assert(all.drop_last().push(all.last()) == all);
    }
}

/// In a ranking no member is outranked by its successor.
pub proof fn lemma_ranked_descending(all: Seq<Scored>)
    ensures
        descending(ranked(all)),
    decreases all.len(),
{
    if all.len() > 0 {
        let before = ranked(all.drop_last());
        lemma_ranked_descending(all.drop_last());
        lemma_slot(before, all.last());
    }
}

/// Where every score is comparable, a ranking is sorted outright: no
/// member is outranked by any later one.
pub proof fn lemma_ranked_sorted(all: Seq<Scored>)
    requires
        comparable(all),
    ensures
        sorted(ranked(all)),
        comparable(ranked(all)),
    decreases all.len(),
{
    if all.len() > 0 {
        let before = ranked(all.drop_last());
        let at = slot(before, all.last()) as int;
        assert forall|i: int| 0 <= i < all.drop_last().len() implies (
        #[trigger] all.drop_last()[i]).score is Some by {
            assert(all.drop_last()[i] == all[i]);
        }
        lemma_ranked_sorted(all.drop_last());
        lemma_slot(before, all.last());
        let after = ranked(all);
        assert forall|i: int, j: int| 0 <= i < j < after.len() implies !outranks(
            (#[trigger] after[j]).score,
            (#[trigger] after[i]).score,
        ) by {
            if j == at && at > 0 {
                assert(before[at - 1].score is Some);
                assert(!outranks(before[at - 1].score, before[i].score) || i == at - 1);
            }
        }
    }
}

/// Ranking changes nothing where there is nothing to mend: a sequence in
/// which no member is outranked by its successor is its own ranking.
pub proof fn lemma_ranked_keeps_descending(all: Seq<Scored>)
    requires
        descending(all),
    ensures
        ranked(all) == all,
    decreases all.len(),
{
    if all.len() > 0 {
        let front = all.drop_last();
        assert forall|i: int, j: int| 0 <= i && j == i + 1 && j < front.len() implies !outranks(
            (#[trigger] front[j]).score,
            (#[trigger] front[i]).score,
        ) by {
            assert(front[i] == all[i]);
            assert(front[j] == all[j]);
        }
        lemma_ranked_keeps_descending(front);
        if front.len() > 0 {
            assert(front.last() == all[all.len() - 2]);
            assert(all.last() == all[all.len() - 1]);
        }
        assert(front.insert(front.len() as int, all.last()) == all);
    }
}

/// Decides [`outranks`].
pub fn exceeds(a: Option<i64>, b: Option<i64>) -> (r: bool)
    ensures
        r == outranks(a, b),
{
    match (a, b) {
        (Some(x), Some(y)) => x > y,
        _ => false,
    }
}

/// Ranks `all` by descending score. Members of equal score keep their
/// order, and so does a member whose score cannot be compared with that
/// of its neighbour.
pub fn rank(all: &Vec<Scored>) -> (order: Vec<Scored>)
    ensures
        order@ == ranked(all@),
        order@.to_multiset() == all@.to_multiset(),
        order.len() == all.len(),
        descending(order@),
        comparable(all@) ==> sorted(order@),
{
    let mut order: Vec<Scored> = Vec::new();
    let mut i: usize = 0;
    while i < all.len()
        invariant
            i <= all.len(),
            order@ == ranked(all@.take(i as int)),
        decreases all.len() - i,
    {
        let newcomer = all[i];
        let mut at: usize = order.len();
        assert(order@.take(at as int) == order@);
        while at > 0 && exceeds(newcomer.score, order[at - 1].score)
            invariant
                at <= order.len(),
                slot(order@, newcomer) == slot(order@.take(at as int), newcomer),
            decreases at,
        {
            proof {
                let front = order@.take(at as int);
                assert(front.last() == order[at - 1]);
                assert(front.drop_last() == order@.take(at - 1));
            }
            at -= 1;
        }
        proof {
            let front = order@.take(at as int);
            if at > 0 {
                assert(front.last() == order[at - 1]);
            }
            assert(slot(front, newcomer) == at);
            let grown = all@.take(i + 1);
            assert(grown.drop_last() == all@.take(i as int));
            assert(grown.last() == newcomer);
        }
        order.insert(at, newcomer);
        i += 1;
    }
    proof {
        assert(all@.take(all.len() as int) == all@);
        lemma_ranked_permutes(all@);
        lemma_ranked_descending(all@);
        if comparable(all@) {
            lemma_ranked_sorted(all@);
        }
    }
    order
}

} // verus!
