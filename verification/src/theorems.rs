//! What holds of every tournament, proved from the engine's definitions.

use crate::engine::{
    alive, compares, comparisons, eliminated, fair_pairing, least, recordable, remaining,
};
use crate::filtering::{
    lemma_filter_agree, lemma_filter_contains, lemma_filter_empty, lemma_filter_no_duplicates,
    lemma_filter_push, lemma_filter_twice, lemma_keep_all, lemma_without_len, other_than, without,
};
use crate::model::{Decision, Pick};
use vstd::prelude::*;

verus! {

/// Whether the log came about by adding one recordable decision after the
/// other, starting from the empty log.
pub open spec fn played(pool: Seq<i32>, log: Seq<Decision>) -> bool
    decreases log.len(),
{
    log.len() == 0 || (played(pool, log.drop_last()) && recordable(
        pool,
        log.drop_last(),
        log.last(),
    ))
}

/// Whether the log came about by judging, one after the other, pairs that
/// the fairness rule allowed when they were made.
pub open spec fn fairly_played(pool: Seq<i32>, log: Seq<Decision>) -> bool
    decreases log.len(),
{
    log.len() == 0 || (fairly_played(pool, log.drop_last()) && log.last().resolved()
        && fair_pairing(pool, log.drop_last(), log.last()))
}

/// Whether the comparisons are spread evenly: no remaining candidate has
/// been compared more than once more often than another.
pub open spec fn balanced(pool: Seq<i32>, log: Seq<Decision>) -> bool {
    forall|a: i32, b: i32|
        remaining(pool, log).contains(a) && remaining(pool, log).contains(b) ==> comparisons(
            log,
            a,
        ) <= comparisons(log, b) + 1
}

/// A candidate has left the tournament after one more decision exactly if it
/// had left before or the new decision was judged against it.
pub proof fn lemma_eliminated_push(log: Seq<Decision>, decision: Decision, candidate: i32)
    ensures
        eliminated(log.push(decision), candidate) <==> (eliminated(log, candidate)
            || decision.loser() == Some(candidate)),
{
    let longer = log.push(decision);
    if eliminated(log, candidate) {
        let i = choose|i: int| 0 <= i < log.len() && (#[trigger] log[i]).loser() == Some(candidate);
        assert(longer[i].loser() == Some(candidate));
    }
    if decision.loser() == Some(candidate) {
        assert(longer[log.len() as int].loser() == Some(candidate));
    }
    if eliminated(longer, candidate) {
        let i = choose|i: int|
            0 <= i < longer.len() && (#[trigger] longer[i]).loser() == Some(candidate);
        if i < log.len() {
            assert(log[i].loser() == Some(candidate));
        }
    }
}

/// One more decision adds one comparison to each of its two candidates, if it
/// is judged, and none to anyone else.
pub proof fn lemma_comparisons_push(log: Seq<Decision>, decision: Decision, candidate: i32)
    ensures
        comparisons(log.push(decision), candidate) == comparisons(log, candidate) + if decision.resolved()
            && decision.involves(candidate) {
            1nat
        } else {
            0nat
        },
{
    lemma_filter_push(log, compares(candidate), decision);
}

/// The predicate that holds of the decisions in which the candidate was
/// preferred.
pub open spec fn won_by(candidate: i32) -> spec_fn(Decision) -> bool {
    |decision: Decision| decision.winner() == Some(candidate)
}

/// The number of decisions of the log in which the candidate was preferred.
pub open spec fn wins(log: Seq<Decision>, candidate: i32) -> nat {
    log.filter(won_by(candidate)).len()
}

/// A candidate that is still in the tournament was preferred in every
/// comparison it took part in: for it, counting comparisons and counting
/// wins is the same.
pub proof fn lemma_comparisons_of_the_remaining_are_wins(log: Seq<Decision>, candidate: i32)
    requires
        !eliminated(log, candidate),
    ensures
        comparisons(log, candidate) == wins(log, candidate),
{
    assert forall|i: int| 0 <= i < log.len() implies compares(candidate)(#[trigger] log[i])
        == won_by(candidate)(log[i]) by {
        assert(log[i].loser() != Some(candidate));
    }
    lemma_filter_agree(log, compares(candidate), won_by(candidate));
}

/// Each recorded decision takes exactly one candidate out of the tournament:
/// the one it was judged against. The preferred candidate stays.
pub proof fn lemma_record_eliminates_one(pool: Seq<i32>, log: Seq<Decision>, decision: Decision)
    requires
        pool.no_duplicates(),
        recordable(pool, log, decision),
    ensures
        remaining(pool, log.push(decision)) == without(
            remaining(pool, log),
            decision.loser().unwrap(),
        ),
        remaining(pool, log.push(decision)).len() == remaining(pool, log).len() - 1,
        remaining(pool, log.push(decision)).contains(decision.winner().unwrap()),
        !remaining(pool, log.push(decision)).contains(decision.loser().unwrap()),
{
    let loser = decision.loser().unwrap();
    let winner = decision.winner().unwrap();
    let longer = log.push(decision);
    assert forall|i: int| 0 <= i < pool.len() implies alive(longer)(#[trigger] pool[i]) == (alive(
        log,
    )(pool[i]) && other_than(loser)(pool[i])) by {
        lemma_eliminated_push(log, decision, pool[i]);
    }
    lemma_filter_twice(pool, alive(log), other_than(loser), alive(longer));
    lemma_filter_no_duplicates(pool, alive(log));
    lemma_without_len(remaining(pool, log), loser);
    lemma_filter_contains(remaining(pool, log), other_than(loser), winner);
    lemma_filter_contains(remaining(pool, log), other_than(loser), loser);
}

/// In a tournament that was played by the rules, the candidates that remain
/// and the decisions that were recorded add up to the pool: no decision is
/// idle.
pub proof fn lemma_played_length(pool: Seq<i32>, log: Seq<Decision>)
    requires
        pool.no_duplicates(),
        played(pool, log),
    ensures
        remaining(pool, log).len() + log.len() == pool.len(),
    decreases log.len(),
{
    if log.len() == 0 {
        assert forall|i: int| 0 <= i < pool.len() implies alive(log)(#[trigger] pool[i]) by {}
        lemma_keep_all(pool, alive(log));
    } else {
        lemma_played_length(pool, log.drop_last());
        lemma_record_eliminates_one(pool, log.drop_last(), log.last());
        assert(log.drop_last().push(log.last()) =~= log);
    }
}

/// A tournament among `n >= 2` candidates that is played by the rules is
/// over after exactly `n - 1` decisions: not before, and no further decision
/// can be recorded after.
pub proof fn theorem_finished_after(pool: Seq<i32>, log: Seq<Decision>)
    requires
        pool.no_duplicates(),
        pool.len() >= 2,
        played(pool, log),
    ensures
        log.len() <= pool.len() - 1,
        remaining(pool, log).len() <= 1 <==> log.len() == pool.len() - 1,
        remaining(pool, log).len() >= 1,
{
    lemma_played_length(pool, log);
    if log.len() > 0 {
        let before = log.drop_last();
        let last = log.last();
        lemma_played_length(pool, before);
        let left = remaining(pool, before);
        let i = choose|i: int| 0 <= i < left.len() && left[i] == last.left;
        let j = choose|j: int| 0 <= j < left.len() && left[j] == last.right;
        assert(i != j);
    }
}

/// Only a tournament with an empty pool ends without a winner: where the
/// log was played by the rules, no candidate remains exactly if none ever
/// entered.
pub proof fn theorem_degenerate_only_when_empty(pool: Seq<i32>, log: Seq<Decision>)
    requires
        pool.no_duplicates(),
        played(pool, log),
    ensures
        remaining(pool, log).len() == 0 <==> pool.len() == 0,
{
    lemma_played_length(pool, log);
    if log.len() > 0 {
        let before = log.drop_last();
        let last = log.last();
        lemma_record_eliminates_one(pool, before, last);
        assert(before.push(last) =~= log);
    }
}

/// Elimination is permanent: a candidate that has left the tournament has
/// left it in every log that goes on from there.
pub proof fn lemma_elimination_is_permanent(log: Seq<Decision>, more: Seq<Decision>, candidate: i32)
    requires
        eliminated(log, candidate),
    ensures
        eliminated(log + more, candidate),
        forall|pool: Seq<i32>| !(#[trigger] remaining(pool, log + more)).contains(candidate),
{
    let i = choose|i: int| 0 <= i < log.len() && (#[trigger] log[i]).loser() == Some(candidate);
    assert((log + more)[i].loser() == Some(candidate));
    assert forall|pool: Seq<i32>| !(#[trigger] remaining(pool, log + more)).contains(candidate) by {
        lemma_filter_contains(pool, alive(log + more), candidate);
    }
}

/// Who remains depends only on which judged decisions the log holds: not on
/// their order, not on how often each occurs, and not on unjudged pairs.
pub proof fn theorem_remaining_ignores_replay(pool: Seq<i32>, one: Seq<Decision>, other: Seq<Decision>)
    requires
        forall|decision: Decision|
            #![trigger one.contains(decision)]
            #![trigger other.contains(decision)]
            decision.resolved() ==> (one.contains(decision) <==> other.contains(decision)),
    ensures
        remaining(pool, one) == remaining(pool, other),
{
    assert forall|i: int| 0 <= i < pool.len() implies alive(one)(#[trigger] pool[i]) == alive(
        other,
    )(pool[i]) by {
        let candidate = pool[i];
        if eliminated(one, candidate) {
            let k = choose|k: int|
                0 <= k < one.len() && (#[trigger] one[k]).loser() == Some(candidate);
            assert(one.contains(one[k]));
            assert(other.contains(one[k]));
            let m = choose|m: int| 0 <= m < other.len() && other[m] == one[k];
            assert(other[m].loser() == Some(candidate));
        }
        if eliminated(other, candidate) {
            let k = choose|k: int|
                0 <= k < other.len() && (#[trigger] other[k]).loser() == Some(candidate);
            assert(other.contains(other[k]));
            assert(one.contains(other[k]));
            let m = choose|m: int| 0 <= m < one.len() && one[m] == other[k];
            assert(one[m].loser() == Some(candidate));
        }
    }
    lemma_filter_agree(pool, alive(one), alive(other));
}

/// A pair that the fairness rule allows can be recorded once it is judged,
/// whichever side is preferred.
pub proof fn lemma_fair_pairing_is_recordable(
    pool: Seq<i32>,
    log: Seq<Decision>,
    pair: Decision,
    pick: Pick,
)
    requires
        fair_pairing(pool, log, pair),
        pick != Pick::Undecided,
    ensures
        recordable(pool, log, pair.with_pick(pick)),
{
    let left = remaining(pool, log);
    lemma_filter_contains(left, least(left, log), pair.left);
    let rest = without(left, pair.left);
    lemma_filter_contains(rest, least(rest, log), pair.right);
    lemma_filter_contains(left, other_than(pair.left), pair.right);
}

/// A log that was played fairly was played by the rules.
pub proof fn lemma_fair_play_is_play(pool: Seq<i32>, log: Seq<Decision>)
    requires
        fairly_played(pool, log),
    ensures
        played(pool, log),
    decreases log.len(),
{
    if log.len() > 0 {
        lemma_fair_play_is_play(pool, log.drop_last());
        let last = log.last();
        lemma_fair_pairing_is_recordable(pool, log.drop_last(), last, last.pick);
        assert(last.with_pick(last.pick) == last);
    }
}

/// Judging a fair pair keeps the comparisons balanced, whichever side is
/// preferred.
pub proof fn lemma_fair_step_keeps_balance(
    pool: Seq<i32>,
    log: Seq<Decision>,
    pair: Decision,
    pick: Pick,
)
    requires
        pool.no_duplicates(),
        balanced(pool, log),
        fair_pairing(pool, log, pair),
        pick != Pick::Undecided,
    ensures
        balanced(pool, log.push(pair.with_pick(pick))),
{
    let judged = pair.with_pick(pick);
    let longer = log.push(judged);
    let left = remaining(pool, log);
    let rest = without(left, pair.left);
    let loser = judged.loser().unwrap();
    let winner = judged.winner().unwrap();
    lemma_fair_pairing_is_recordable(pool, log, pair, pick);
    lemma_record_eliminates_one(pool, log, judged);
    lemma_filter_contains(left, least(left, log), pair.left);
    lemma_filter_contains(rest, least(rest, log), pair.right);
    assert forall|a: i32, b: i32|
        remaining(pool, longer).contains(a) && remaining(pool, longer).contains(b) implies comparisons(
        longer,
        a,
    ) <= comparisons(longer, b) + 1 by {
        lemma_filter_contains(left, other_than(loser), a);
        lemma_filter_contains(left, other_than(loser), b);
        lemma_comparisons_push(log, judged, a);
        lemma_comparisons_push(log, judged, b);
        assert(left.contains(a) && left.contains(b));
        if a == winner {
            if pick == Pick::Left {
                let k = choose|k: int| 0 <= k < left.len() && left[k] == b;
                assert(comparisons(log, pair.left) <= comparisons(log, left[k]));
            } else {
                lemma_filter_contains(left, other_than(pair.left), b);
                let k = choose|k: int| 0 <= k < rest.len() && rest[k] == b;
                assert(comparisons(log, pair.right) <= comparisons(log, rest[k]));
            }
        }
    }
}

/// In a tournament that is played fairly the comparisons stay balanced: at
/// every point, the numbers of comparisons of any two remaining candidates
/// differ by one at most.
pub proof fn theorem_fair_play_is_balanced(pool: Seq<i32>, log: Seq<Decision>)
    requires
        pool.no_duplicates(),
        fairly_played(pool, log),
    ensures
        balanced(pool, log),
    decreases log.len(),
{
    if log.len() == 0 {
        assert forall|a: i32, b: i32|
            remaining(pool, log).contains(a) && remaining(pool, log).contains(b) implies comparisons(
            log,
            a,
        ) <= comparisons(log, b) + 1 by {
            lemma_filter_empty(log, compares(a));
        }
    } else {
        let last = log.last();
        theorem_fair_play_is_balanced(pool, log.drop_last());
        lemma_fair_step_keeps_balance(pool, log.drop_last(), last, last.pick);
        assert(last.with_pick(last.pick) == last);
        assert(log.drop_last().push(last) =~= log);
    }
}

} // verus!
