//! A tournament: a pool of candidates that is fixed when the tournament is
//! made, and the operations that drive it over a log of decisions.

use crate::catalog::{for_slot, TournamentModel};
use crate::chooser::Chooser;
use crate::engine::{
    alive, eliminated, fair_pairing, is_eliminated, least_compared, next_lowest_pick, recordable,
    remaining, remaining_candidates, without_candidate,
};
use crate::filtering::{
    lemma_filter_contains, lemma_filter_no_duplicates, lemma_without_len, other_than, without,
};
use crate::theorems::{
    fairly_played, lemma_fair_pairing_is_recordable, lemma_record_eliminates_one, played,
};
use crate::model::{Anime, Decision, Pick, Slot, TournamentAnime, TournamentError};
use vstd::prelude::*;

verus! {

/// The ids of a sequence, each at its first occurrence.
pub open spec fn distinct(ids: Seq<i32>) -> Seq<i32>
    decreases ids.len(),
{
    if ids.len() == 0 {
        Seq::empty()
    } else {
        let front = distinct(ids.drop_last());
        if front.contains(ids.last()) {
            front
        } else {
            front.push(ids.last())
        }
    }
}

/// The ids of the candidates, in their order.
pub open spec fn ids_of(candidates: Seq<Anime>) -> Seq<i32> {
    Seq::new(candidates.len(), |i: int| candidates[i].id)
}

/// The candidate ids of the stored entries that belong to the tournament, in
/// their order.
pub open spec fn entries_of(rows: Seq<TournamentAnime>, tournament: i32) -> Seq<i32>
    decreases rows.len(),
{
    if rows.len() == 0 {
        Seq::empty()
    } else if rows.last().tournament == tournament {
        entries_of(rows.drop_last(), tournament).push(rows.last().anime)
    } else {
        entries_of(rows.drop_last(), tournament)
    }
}

/// `distinct` gives a sequence without duplicates that holds the same ids.
pub proof fn lemma_distinct(ids: Seq<i32>)
    ensures
        distinct(ids).no_duplicates(),
        forall|x: i32| distinct(ids).contains(x) <==> ids.contains(x),
        ids.no_duplicates() ==> distinct(ids) == ids,
    decreases ids.len(),
{
    if ids.len() > 0 {
        let front = ids.drop_last();
        let last = ids.last();
        lemma_distinct(front);
        let kept = distinct(front);
        assert(ids =~= front.push(last));
        assert forall|x: i32| distinct(ids).contains(x) <==> ids.contains(x) by {
            if ids.contains(x) {
                let i = choose|i: int| 0 <= i < ids.len() && ids[i] == x;
                if i < front.len() {
                    assert(front[i] == x);
                    assert(front.contains(x));
                    assert(kept.contains(x));
                    let j = choose|j: int| 0 <= j < kept.len() && kept[j] == x;
                    assert(distinct(ids)[j] == x);
                } else {
                    if !kept.contains(last) {
                        assert(kept.push(last)[kept.len() as int] == x);
                    }
                }
            }
            if distinct(ids).contains(x) {
                let j = choose|j: int| 0 <= j < distinct(ids).len() && distinct(ids)[j] == x;
                if j < kept.len() {
                    assert(kept[j] == x);
                    assert(front.contains(x));
                    let i = choose|i: int| 0 <= i < front.len() && front[i] == x;
                    assert(ids[i] == x);
                } else {
                    assert(ids[ids.len() - 1] == x);
                }
            }
        }
        if ids.no_duplicates() {
            assert(front.no_duplicates());
            if front.contains(last) {
                let i = choose|i: int| 0 <= i < front.len() && front[i] == last;
                assert(ids[i] == ids[ids.len() - 1]);
            }
            assert(distinct(ids) =~= ids);
        }
    } else {
        assert(ids =~= Seq::<i32>::empty());
    }
}

/// Whether the list holds the id.
pub fn contains_id(ids: &Vec<i32>, id: i32) -> (found: bool)
    ensures
        found == ids@.contains(id),
{
    let mut i: usize = 0;
    while i < ids.len()
        invariant
            i <= ids.len(),
            forall|k: int| 0 <= k < i ==> ids@[k] != id,
        decreases ids.len() - i,
    {
        if ids[i] == id {
            return true;
        }
        i = i + 1;
    }
    false
}

/// What a tournament is: its id and its pool, a sequence of candidate ids in
/// which none occurs twice.
pub struct TournamentView {
    pub id: i32,
    pub pool: Seq<i32>,
}

/// How far a tournament has come.
#[derive(Clone, Copy, Debug, PartialEq, Eq, Structural)]
pub enum Stage {
    /// Two or more candidates remain: there is a pair to compare.
    Active,
    /// One candidate remains: the winner.
    Finished,
    /// No candidate remains. This happens only where the pool was empty.
    Degenerate,
}

/// The stage of a tournament with this pool and log.
pub open spec fn stage_of(pool: Seq<i32>, log: Seq<Decision>) -> Stage {
    if remaining(pool, log).len() >= 2 {
        Stage::Active
    } else if remaining(pool, log).len() == 1 {
        Stage::Finished
    } else {
        Stage::Degenerate
    }
}

/// What comes of adding the decision to the log of the tournament `id`. An
/// unjudged decision is an invalid outcome. A decision of another tournament,
/// or on a candidate that the pool does not hold, refers to something that is
/// not found. A decision that compares a candidate with itself, or with one
/// that has left the tournament, is an invalid outcome too.
pub open spec fn admission(id: i32, pool: Seq<i32>, log: Seq<Decision>, decision: Decision)
    -> Result<(), TournamentError> {
    if !decision.resolved() {
        Err(TournamentError::InvalidOutcome)
    } else if decision.tournament != id || !pool.contains(decision.left) || !pool.contains(
        decision.right,
    ) {
        Err(TournamentError::NotFound)
    } else if decision.left == decision.right || eliminated(log, decision.left) || eliminated(
        log,
        decision.right,
    ) {
        Err(TournamentError::InvalidOutcome)
    } else {
        Ok(())
    }
}

/// A tournament. Its pool is fixed when it is made; who has left it is
/// derived from the log of decisions, which the caller keeps.
pub struct Tournament {
    id: i32,
    pool: Vec<i32>,
}

impl View for Tournament {
    type V = TournamentView;

    closed spec fn view(&self) -> TournamentView {
        TournamentView { id: self.id, pool: self.pool@ }
    }
}

impl Tournament {
    #[verifier::type_invariant]
    spec fn pool_is_a_set(&self) -> bool {
        self.pool@.no_duplicates()
    }

    /// A tournament among the given candidate ids. An id that occurs more
    /// than once enters the pool once, at its first place.
    pub fn from_ids(id: i32, ids: &Vec<i32>) -> (tournament: Tournament)
        ensures
            tournament@.id == id,
            tournament@.pool == distinct(ids@),
            tournament@.pool.no_duplicates(),
    {
        let mut pool: Vec<i32> = Vec::new();
        let mut i: usize = 0;
        assert(ids@.take(0) =~= Seq::<i32>::empty());
        while i < ids.len()
            invariant
                i <= ids.len(),
                pool@ == distinct(ids@.take(i as int)),
            decreases ids.len() - i,
        {
            assert(ids@.take(i + 1).drop_last() =~= ids@.take(i as int));
            if !contains_id(&pool, ids[i]) {
                pool.push(ids[i]);
            }
            i = i + 1;
        }
        proof {
            assert(ids@.take(ids.len() as int) =~= ids@);
            lemma_distinct(ids@);
        }
        Tournament { id, pool }
    }

    /// A tournament among the given candidates: the pool is a snapshot of
    /// their ids.
    pub fn new(id: i32, candidates: &Vec<Anime>) -> (tournament: Tournament)
        ensures
            tournament@.id == id,
            tournament@.pool == distinct(ids_of(candidates@)),
            tournament@.pool.no_duplicates(),
    {
        let mut ids: Vec<i32> = Vec::new();
        let mut i: usize = 0;
        while i < candidates.len()
            invariant
                i <= candidates.len(),
                ids@ == ids_of(candidates@).take(i as int),
            decreases candidates.len() - i,
        {
            ids.push(candidates[i].id);
            assert(ids@ =~= ids_of(candidates@).take(i + 1));
            i = i + 1;
        }
        assert(ids@ =~= ids_of(candidates@));
        Tournament::from_ids(id, &ids)
    }

    /// A tournament among the candidates that the source holds of the
    /// category, as they are now: what is added to the source later does not
    /// enter the pool.
    pub fn create<M: TournamentModel>(id: i32, model: &M, slot: Slot) -> (tournament: Tournament)
        ensures
            tournament@.id == id,
            tournament@.pool == distinct(ids_of(for_slot(model.catalog(), slot))),
            tournament@.pool.no_duplicates(),
    {
        let candidates = model.get_anime_for_slot(slot);
        Tournament::new(id, &candidates)
    }

    /// The tournament whose pool the stored entries describe. Entries of
    /// other tournaments are passed over.
    pub fn from_rows(id: i32, rows: &Vec<TournamentAnime>) -> (tournament: Tournament)
        ensures
            tournament@.id == id,
            tournament@.pool == distinct(entries_of(rows@, id)),
            tournament@.pool.no_duplicates(),
    {
        let mut ids: Vec<i32> = Vec::new();
        let mut i: usize = 0;
        assert(rows@.take(0) =~= Seq::<TournamentAnime>::empty());
        while i < rows.len()
            invariant
                i <= rows.len(),
                ids@ == entries_of(rows@.take(i as int), id),
            decreases rows.len() - i,
        {
            assert(rows@.take(i + 1).drop_last() =~= rows@.take(i as int));
            if rows[i].tournament == id {
                ids.push(rows[i].anime);
            }
            i = i + 1;
        }
        assert(rows@.take(rows.len() as int) =~= rows@);
        Tournament::from_ids(id, &ids)
    }

    /// The pool as it is stored: one entry for each candidate, in the pool's
    /// order.
    pub fn rows(&self) -> (rows: Vec<TournamentAnime>)
        ensures
            rows@.len() == self@.pool.len(),
            forall|i: int|
                0 <= i < rows@.len() ==> #[trigger] rows@[i] == (TournamentAnime {
                    tournament: self@.id,
                    anime: self@.pool[i],
                }),
            entries_of(rows@, self@.id) == self@.pool,
    {
        let mut rows: Vec<TournamentAnime> = Vec::new();
        let mut i: usize = 0;
        while i < self.pool.len()
            invariant
                i <= self.pool.len(),
                rows@.len() == i,
                forall|k: int|
                    0 <= k < i ==> #[trigger] rows@[k] == (TournamentAnime {
                        tournament: self.id,
                        anime: self.pool@[k],
                    }),
                entries_of(rows@, self.id) == self.pool@.take(i as int),
            decreases self.pool.len() - i,
        {
            let ghost before = rows@;
            rows.push(TournamentAnime { tournament: self.id, anime: self.pool[i] });
            proof {
                assert(rows@.drop_last() =~= before);
                assert(self.pool@.take(i + 1) =~= self.pool@.take(i as int).push(self.pool@[i as int]));
            }
            i = i + 1;
        }
        assert(self.pool@.take(self.pool.len() as int) =~= self.pool@);
        rows
    }

    /// The tournament's id.
    pub fn id(&self) -> (id: i32)
        ensures
            id == self@.id,
    {
        self.id
    }

    /// The pool: the candidates that entered the tournament, none of them
    /// twice.
    pub fn pool(&self) -> (pool: &Vec<i32>)
        ensures
            pool@ == self@.pool,
            pool@.no_duplicates(),
    {
        proof {
            use_type_invariant(self);
        }
        &self.pool
    }
}

impl Tournament {
    /// The candidates that are still in the tournament, in the pool's order:
    /// those of the pool that no decision of the log was judged against.
    pub fn remaining_anime(&self, log: &Vec<Decision>) -> (left: Vec<i32>)
        ensures
            left@ == remaining(self@.pool, log@),
            left@.no_duplicates(),
            forall|candidate: i32|
                left@.contains(candidate) <==> (self@.pool.contains(candidate) && !eliminated(
                    log@,
                    candidate,
                )),
    {
        proof {
            use_type_invariant(self);
            lemma_filter_no_duplicates(self.pool@, alive(log@));
            assert forall|candidate: i32|
                remaining(self.pool@, log@).contains(candidate) <==> (self.pool@.contains(candidate)
                    && !eliminated(log@, candidate)) by {
                lemma_filter_contains(self.pool@, alive(log@), candidate);
            }
        }
        remaining_candidates(&self.pool, log)
    }

    /// Whether the tournament is over: at most one candidate remains. A
    /// tournament with an empty pool is over from the start.
    pub fn is_finished(&self, log: &Vec<Decision>) -> (finished: bool)
        ensures
            finished == (remaining(self@.pool, log@).len() <= 1),
            finished == (stage_of(self@.pool, log@) != Stage::Active),
    {
        let left = self.remaining_anime(log);
        left.len() <= 1
    }

    /// How far the tournament has come.
    pub fn stage(&self, log: &Vec<Decision>) -> (stage: Stage)
        ensures
            stage == stage_of(self@.pool, log@),
    {
        let left = self.remaining_anime(log);
        if left.len() >= 2 {
            Stage::Active
        } else if left.len() == 1 {
            Stage::Finished
        } else {
            Stage::Degenerate
        }
    }

    /// The winner: the one candidate that remains. There is none while two
    /// or more remain, and none where the pool was empty.
    pub fn get_winner(&self, log: &Vec<Decision>) -> (winner: Option<i32>)
        ensures
            remaining(self@.pool, log@).len() == 1 ==> winner == Some(
                remaining(self@.pool, log@)[0],
            ),
            remaining(self@.pool, log@).len() != 1 ==> winner.is_none(),
    {
        let left = self.remaining_anime(log);
        if left.len() == 1 {
            Some(left[0])
        } else {
            None
        }
    }

    /// The pair to compare next, with the chooser breaking ties.
    ///
    /// There is a pair exactly while two or more candidates remain. Its left
    /// candidate is the chooser's pick among the least compared of those that
    /// remain, its right candidate the chooser's next pick among the least
    /// compared of the others. The pair is unjudged.
    pub fn next_decision_with(&self, log: &Vec<Decision>, chooser: &mut Chooser) -> (next: Option<
        Decision,
    >)
        ensures
            next.is_some() <==> remaining(self@.pool, log@).len() >= 2,
            next.is_none() ==> *final(chooser) == *old(chooser),
            next.is_some() ==> ({
                let pair = next.unwrap();
                let left = remaining(self@.pool, log@);
                let first = least_compared(left, log@);
                let second = least_compared(without(left, pair.left), log@);
                &&& pair.tournament == self@.id
                &&& pair.pick == Pick::Undecided
                &&& old(chooser).permits(first, Some(pair.left))
                &&& old(chooser).after(first).permits(second, Some(pair.right))
                &&& *final(chooser) == old(chooser).after(first).after(second)
                &&& fair_pairing(self@.pool, log@, pair)
                &&& left.contains(pair.left)
                &&& left.contains(pair.right)
                &&& pair.left != pair.right
            }),
    {
        let left = self.remaining_anime(log);
        if left.len() < 2 {
            return None;
        }
        let first = match next_lowest_pick(&left, log, chooser) {
            Some(candidate) => candidate,
            None => { return None; },
        };
        let rest = without_candidate(&left, first);
        proof {
            lemma_without_len(left@, first);
            lemma_filter_contains(left@, other_than(first), first);
        }
        let second = match next_lowest_pick(&rest, log, chooser) {
            Some(candidate) => candidate,
            None => { return None; },
        };
        proof {
            lemma_filter_contains(left@, other_than(first), second);
        }
        Some(Decision::pending(self.id, first, second))
    }

    /// The pair to compare next, with ties broken at random.
    ///
    /// There is a pair exactly while two or more candidates remain. It is
    /// unjudged, and the fairness rule allows it: its left candidate is among
    /// the least compared of those that remain, its right candidate among the
    /// least compared of the others.
    pub fn next_decision(&self, log: &Vec<Decision>) -> (next: Option<Decision>)
        ensures
            next.is_some() <==> remaining(self@.pool, log@).len() >= 2,
            next.is_some() ==> ({
                let pair = next.unwrap();
                &&& pair.tournament == self@.id
                &&& pair.pick == Pick::Undecided
                &&& fair_pairing(self@.pool, log@, pair)
                &&& remaining(self@.pool, log@).contains(pair.left)
                &&& remaining(self@.pool, log@).contains(pair.right)
                &&& pair.left != pair.right
            }),
    {
        let mut chooser = Chooser::random();
        self.next_decision_with(log, &mut chooser)
    }

    /// Adds a judged decision to the log.
    ///
    /// The decision is added at the end exactly if it belongs to this
    /// tournament, is judged, and compares two different candidates that both
    /// remain. Otherwise the log stays as it is and the error says why.
    pub fn add_decision(&self, log: &mut Vec<Decision>, decision: Decision) -> (added: Result<
        (),
        TournamentError,
    >)
        ensures
            added == admission(self@.id, self@.pool, old(log)@, decision),
            added.is_ok() <==> (decision.tournament == self@.id && recordable(
                self@.pool,
                old(log)@,
                decision,
            )),
            added.is_ok() ==> final(log)@ == old(log)@.push(decision),
            added.is_err() ==> final(log)@ == old(log)@,
    {
        proof {
            lemma_filter_contains(self.pool@, alive(log@), decision.left);
            lemma_filter_contains(self.pool@, alive(log@), decision.right);
        }
        if !decision.is_resolved() {
            return Err(TournamentError::InvalidOutcome);
        }
        if decision.tournament != self.id || !contains_id(&self.pool, decision.left) || !contains_id(
            &self.pool,
            decision.right,
        ) {
            return Err(TournamentError::NotFound);
        }
        if decision.left == decision.right || is_eliminated(log, decision.left) || is_eliminated(
            log,
            decision.right,
        ) {
            return Err(TournamentError::InvalidOutcome);
        }
        log.push(decision);
        Ok(())
    }

    /// Plays the tournament on from the log until it is over: asks for the
    /// next pair, lets the chooser prefer a side, records the decision, and
    /// so on. Returns the number of decisions that were added.
    ///
    /// Each turn takes one candidate out, so a tournament in which two or
    /// more candidates remain is over after one turn fewer than remain, with
    /// one candidate left; otherwise nothing is added. The log grows at its
    /// end only. Every decision that is added is a judged decision of this
    /// tournament on a pair that the fairness rule allowed when it was made.
    pub fn play_out(&self, log: &mut Vec<Decision>, chooser: &mut Chooser) -> (turns: usize)
        ensures
            remaining(self@.pool, final(log)@).len() <= 1,
            remaining(self@.pool, old(log)@).len() >= 2 ==> turns == remaining(
                self@.pool,
                old(log)@,
            ).len() - 1 && remaining(self@.pool, final(log)@).len() == 1,
            remaining(self@.pool, old(log)@).len() < 2 ==> turns == 0,
            final(log)@.len() == old(log)@.len() + turns,
            final(log)@.take(old(log)@.len() as int) == old(log)@,
            forall|i: int|
                old(log)@.len() <= i < final(log)@.len() ==> (#[trigger] final(log)@[i]).resolved()
                    && final(log)@[i].tournament == self@.id,
            played(self@.pool, old(log)@) ==> played(self@.pool, final(log)@),
            fairly_played(self@.pool, old(log)@) ==> fairly_played(self@.pool, final(log)@),
    {
        let ghost start = log@;
        let mut turns: usize = 0;
        proof {
            use_type_invariant(self);
            self.pool@.lemma_filter_len(alive(start));
            assert(self.pool@.len() == self.pool.len());
            assert(log@.take(start.len() as int) =~= start);
        }
        while !self.is_finished(log)
            invariant
                self@.pool.no_duplicates(),
                log@.len() == start.len() + turns,
                log@.take(start.len() as int) == start,
                remaining(self@.pool, log@).len() + turns == remaining(self@.pool, start).len(),
                remaining(self@.pool, start).len() < 2 ==> turns == 0,
                remaining(self@.pool, start).len() >= 2 ==> remaining(self@.pool, log@).len() >= 1,
                remaining(self@.pool, start).len() <= usize::MAX,
                forall|i: int|
                    start.len() <= i < log@.len() ==> (#[trigger] log@[i]).resolved()
                        && log@[i].tournament == self@.id,
                played(self@.pool, start) ==> played(self@.pool, log@),
                fairly_played(self@.pool, start) ==> fairly_played(self@.pool, log@),
            decreases remaining(self@.pool, log@).len(),
        {
            let ghost before = log@;
            if let Some(pair) = self.next_decision_with(log, chooser) {
                let side = chooser.pick_side();
                if let Ok(judged) = pair.resolve(side) {
                    proof {
                        lemma_fair_pairing_is_recordable(self@.pool, before, pair, side);
                        lemma_record_eliminates_one(self@.pool, before, judged);
                    }
                    let added = self.add_decision(log, judged);
                    proof {
                        assert(added.is_ok());
                        assert(log@.drop_last() =~= before);
                        assert(log@.last() == judged);
                        assert(log@.take(start.len() as int) =~= start);
                    }
                    turns = turns + 1;
                }
            }
        }
        turns
    }
}

} // verus!
