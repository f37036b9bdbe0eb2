//! The elimination engine: who is still in a tournament, and who is
//! compared next.
//!
//! Everything here is a function of a pool of candidate ids and a log of
//! decisions. Nothing is cached: the candidates that remain and the number of
//! comparisons of each are computed from the whole log on every call, so a
//! log that was replayed, reordered or only partly written gives the same
//! answers as the set of decisions in it.

use crate::chooser::Chooser;
use crate::filtering::{
    lemma_filter_contains, lemma_filter_empty, lemma_filter_take_next, other_than, without,
};
use crate::model::Decision;
use vstd::prelude::*;

verus! {

/// Whether some decision of the log was judged against the candidate.
pub open spec fn eliminated(log: Seq<Decision>, candidate: i32) -> bool {
    exists|i: int| 0 <= i < log.len() && (#[trigger] log[i]).loser() == Some(candidate)
}

/// The predicate that holds of the candidates that no decision of the log was
/// judged against.
pub open spec fn alive(log: Seq<Decision>) -> spec_fn(i32) -> bool {
    |candidate: i32| !eliminated(log, candidate)
}

/// The candidates of the pool that are still in the tournament, in the
/// pool's order.
pub open spec fn remaining(pool: Seq<i32>, log: Seq<Decision>) -> Seq<i32> {
    pool.filter(alive(log))
}

/// The predicate that holds of the judged decisions that the candidate took
/// part in.
pub open spec fn compares(candidate: i32) -> spec_fn(Decision) -> bool {
    |decision: Decision| decision.resolved() && decision.involves(candidate)
}

/// The number of judged decisions of the log that the candidate took part
/// in, on either side.
pub open spec fn comparisons(log: Seq<Decision>, candidate: i32) -> nat {
    log.filter(compares(candidate)).len()
}

/// The predicate that holds of a candidate that none of `candidates` has
/// fewer comparisons than.
pub open spec fn least(candidates: Seq<i32>, log: Seq<Decision>) -> spec_fn(i32) -> bool {
    |candidate: i32|
        forall|j: int|
            0 <= j < candidates.len() ==> comparisons(log, candidate) <= comparisons(
                log,
                #[trigger] candidates[j],
            )
}

/// Those of `candidates` that have been compared least often, in their
/// order.
pub open spec fn least_compared(candidates: Seq<i32>, log: Seq<Decision>) -> Seq<i32> {
    candidates.filter(least(candidates, log))
}

/// Whether the decision can be added to the log: it is judged, and it
/// compares two different candidates that both remain.
pub open spec fn recordable(pool: Seq<i32>, log: Seq<Decision>, decision: Decision) -> bool {
    &&& decision.resolved()
    &&& decision.left != decision.right
    &&& remaining(pool, log).contains(decision.left)
    &&& remaining(pool, log).contains(decision.right)
}

/// Whether the pair is one that the fairness rule allows next: its left
/// candidate is among the least compared of those that remain, and its right
/// candidate among the least compared of the others.
pub open spec fn fair_pairing(pool: Seq<i32>, log: Seq<Decision>, decision: Decision) -> bool {
    &&& least_compared(remaining(pool, log), log).contains(decision.left)
    &&& least_compared(without(remaining(pool, log), decision.left), log).contains(
        decision.right,
    )
}

/// Whether a decision of the log was judged against the candidate.
pub fn is_eliminated(log: &Vec<Decision>, candidate: i32) -> (out: bool)
    ensures
        out == eliminated(log@, candidate),
{
    let mut i: usize = 0;
    while i < log.len()
        invariant
            i <= log.len(),
            forall|k: int| 0 <= k < i ==> (#[trigger] log@[k]).loser() != Some(candidate),
        decreases log.len() - i,
    {
        if let Some(loser) = log[i].loser_id() {
            if loser == candidate {
                return true;
            }
        }
        i = i + 1;
    }
    false
}

/// The candidates of the pool that are still in the tournament, in the
/// pool's order.
pub fn remaining_candidates(pool: &Vec<i32>, log: &Vec<Decision>) -> (left: Vec<i32>)
    ensures
        left@ == remaining(pool@, log@),
{
    let mut left: Vec<i32> = Vec::new();
    let mut i: usize = 0;
    proof {
        lemma_filter_empty(pool@.take(0), alive(log@));
    }
    while i < pool.len()
        invariant
            i <= pool.len(),
            left@ == remaining(pool@.take(i as int), log@),
        decreases pool.len() - i,
    {
        proof {
            lemma_filter_take_next(pool@, alive(log@), i as int);
        }
        if !is_eliminated(log, pool[i]) {
            left.push(pool[i]);
        }
        i = i + 1;
    }
    assert(pool@.take(pool.len() as int) =~= pool@);
    left
}

/// The items without every occurrence of `candidate`.
pub fn without_candidate(items: &Vec<i32>, candidate: i32) -> (rest: Vec<i32>)
    ensures
        rest@ == without(items@, candidate),
{
    let mut rest: Vec<i32> = Vec::new();
    let mut i: usize = 0;
    proof {
        lemma_filter_empty(items@.take(0), other_than(candidate));
    }
    while i < items.len()
        invariant
            i <= items.len(),
            rest@ == without(items@.take(i as int), candidate),
        decreases items.len() - i,
    {
        proof {
            lemma_filter_take_next(items@, other_than(candidate), i as int);
        }
        if items[i] != candidate {
            rest.push(items[i]);
        }
        i = i + 1;
    }
    assert(items@.take(items.len() as int) =~= items@);
    rest
}

/// The number of judged decisions of the log that the candidate took part
/// in.
pub fn comparison_count(log: &Vec<Decision>, candidate: i32) -> (count: usize)
    ensures
        count == comparisons(log@, candidate),
{
    let mut count: usize = 0;
    let mut i: usize = 0;
    proof {
        lemma_filter_empty(log@.take(0), compares(candidate));
    }
    while i < log.len()
        invariant
            i <= log.len(),
            count <= i,
            count == comparisons(log@.take(i as int), candidate),
        decreases log.len() - i,
    {
        proof {
            lemma_filter_take_next(log@, compares(candidate), i as int);
        }
        let decision = log[i];
        if decision.is_resolved() && (decision.left == candidate || decision.right == candidate) {
            count = count + 1;
        }
        i = i + 1;
    }
    assert(log@.take(log.len() as int) =~= log@);
    count
}

/// Those of the candidates that have been compared least often, in their
/// order. Some candidate is among them unless there is none at all.
pub fn least_compared_of(candidates: &Vec<i32>, log: &Vec<Decision>) -> (fewest: Vec<i32>)
    ensures
        fewest@ == least_compared(candidates@, log@),
        candidates@.len() > 0 ==> fewest@.len() > 0,
{
    let mut fewest: Vec<i32> = Vec::new();
    proof {
        lemma_filter_empty(candidates@.take(0), least(candidates@, log@));
    }
    if candidates.len() == 0 {
        assert(candidates@.take(0) =~= candidates@);
        return fewest;
    }
    let mut counts: Vec<usize> = Vec::new();
    let mut i: usize = 0;
    while i < candidates.len()
        invariant
            i <= candidates.len(),
            counts@.len() == i,
            forall|k: int| 0 <= k < i ==> counts@[k] == comparisons(log@, #[trigger] candidates@[k]),
        decreases candidates.len() - i,
    {
        counts.push(comparison_count(log, candidates[i]));
        i = i + 1;
    }
    let mut lowest: usize = counts[0];
    let ghost mut witness: int = 0;
    i = 1;
    while i < candidates.len()
        invariant
            1 <= i <= candidates.len(),
            counts@.len() == candidates@.len(),
            0 <= witness < i,
            counts@[witness] == lowest,
            forall|k: int| 0 <= k < i ==> lowest <= #[trigger] counts@[k],
        decreases candidates.len() - i,
    {
        if counts[i] < lowest {
            lowest = counts[i];
            proof {
                witness = i as int;
            }
        }
        i = i + 1;
    }
    assert forall|k: int| 0 <= k < candidates@.len() implies (least(candidates@, log@)(
        #[trigger] candidates@[k],
    ) <==> counts@[k] == lowest) by {
        if counts@[k] == lowest {
            assert forall|j: int| 0 <= j < candidates@.len() implies comparisons(
                log@,
                candidates@[k],
            ) <= comparisons(log@, #[trigger] candidates@[j]) by {
                assert(lowest <= counts@[j]);
            }
        } else {
            assert(comparisons(log@, candidates@[witness]) < comparisons(log@, candidates@[k]));
        }
    }
    i = 0;
    while i < candidates.len()
        invariant
            i <= candidates.len(),
            counts@.len() == candidates@.len(),
            fewest@ == candidates@.take(i as int).filter(least(candidates@, log@)),
            forall|k: int|
                0 <= k < candidates@.len() ==> (least(candidates@, log@)(#[trigger] candidates@[k])
                    <==> counts@[k] == lowest),
        decreases candidates.len() - i,
    {
        proof {
            lemma_filter_take_next(candidates@, least(candidates@, log@), i as int);
        }
        if counts[i] == lowest {
            fewest.push(candidates[i]);
        }
        i = i + 1;
    }
    proof {
        assert(candidates@.take(candidates.len() as int) =~= candidates@);
        lemma_filter_contains(candidates@, least(candidates@, log@), candidates@[witness]);
    }
    fewest
}

/// One of the candidates that have been compared least often, as the chooser
/// picks it, or nothing where there are no candidates.
pub fn next_lowest_pick(candidates: &Vec<i32>, log: &Vec<Decision>, chooser: &mut Chooser) -> (pick:
    Option<i32>)
    ensures
        old(chooser).permits(least_compared(candidates@, log@), pick),
        *final(chooser) == old(chooser).after(least_compared(candidates@, log@)),
        pick.is_some() <==> candidates@.len() > 0,
        pick.is_some() ==> least_compared(candidates@, log@).contains(pick.unwrap()),
        pick.is_some() ==> candidates@.contains(pick.unwrap()),
{
    let fewest = least_compared_of(candidates, log);
    let pick = chooser.choose_from(&fewest);
    proof {
        candidates@.lemma_filter_len(least(candidates@, log@));
        if pick.is_some() {
            lemma_filter_contains(candidates@, least(candidates@, log@), pick.unwrap());
        }
    }
    pick
}

} // verus!
