//! The data of a tournament: categories, candidates, picks and decisions.

use vstd::prelude::*;

verus! {

/// A category that a candidate can belong to. A tournament is held among the
/// candidates of one category.
#[derive(Clone, Copy, Debug, PartialEq, Eq, Structural)]
pub enum Slot {
    First,
    Second,
    Third,
}

impl Slot {
    /// The category's name in lower case, as a sequence of characters.
    pub open spec fn name_chars(self) -> Seq<char> {
        match self {
            Slot::First => "first"@,
            Slot::Second => "second"@,
            Slot::Third => "third"@,
        }
    }

    /// The category's name in lower case.
    pub fn name(&self) -> (label: &'static str)
        ensures
            label@ == self.name_chars(),
    {
        match self {
            Slot::First => "first",
            Slot::Second => "second",
            Slot::Third => "third",
        }
    }
}

/// The outcome of a comparison. `Undecided` marks a pair that has been
/// proposed and not yet judged.
#[derive(Clone, Copy, Debug, PartialEq, Eq, Structural)]
pub enum Pick {
    Left,
    Right,
    Undecided,
}

impl Pick {
    /// The pick that a stored answer stands for: `true` is the left side,
    /// `false` the right side, and no answer is `Undecided`.
    pub open spec fn of_answer(answer: Option<bool>) -> Pick {
        match answer {
            Some(true) => Pick::Left,
            Some(false) => Pick::Right,
            None => Pick::Undecided,
        }
    }

    /// The answer under which a pick is stored.
    pub open spec fn answer(self) -> Option<bool> {
        match self {
            Pick::Left => Some(true),
            Pick::Right => Some(false),
            Pick::Undecided => None,
        }
    }

    /// The pick's name in lower case, as a sequence of characters.
    pub open spec fn name_chars(self) -> Seq<char> {
        match self {
            Pick::Left => "left"@,
            Pick::Right => "right"@,
            Pick::Undecided => "undecided"@,
        }
    }

    /// What a typed answer means: the single letter `l` or `L` is the left
    /// side, `r` or `R` the right side, anything else decides nothing.
    pub open spec fn of_input(input: Seq<char>) -> Pick {
        if input.len() != 1 {
            Pick::Undecided
        } else if input[0] == 'l' || input[0] == 'L' {
            Pick::Left
        } else if input[0] == 'r' || input[0] == 'R' {
            Pick::Right
        } else {
            Pick::Undecided
        }
    }

    /// Reads a stored answer.
    pub fn to_pick(opt: Option<bool>) -> (pick: Pick)
        ensures
            pick == Pick::of_answer(opt),
            pick.answer() == opt,
    {
        match opt {
            Some(true) => Pick::Left,
            Some(false) => Pick::Right,
            None => Pick::Undecided,
        }
    }

    /// Turns a pick into the answer under which it is stored.
    pub fn to_opt(pick: Pick) -> (opt: Option<bool>)
        ensures
            opt == pick.answer(),
            Pick::of_answer(opt) == pick,
    {
        match pick {
            Pick::Left => Some(true),
            Pick::Right => Some(false),
            Pick::Undecided => None,
        }
    }

    /// The pick's name in lower case.
    pub fn name(&self) -> (label: &'static str)
        ensures
            label@ == self.name_chars(),
    {
        match self {
            Pick::Left => "left",
            Pick::Right => "right",
            Pick::Undecided => "undecided",
        }
    }

    /// Reads a typed answer. The caller asks again while the result is
    /// `Undecided`.
    pub fn parse(input: &str) -> (pick: Pick)
        ensures
            pick == Pick::of_input(input@),
    {
        if input.unicode_len() != 1 {
            return Pick::Undecided;
        }
        let c = input.get_char(0);
        if c == 'l' || c == 'L' {
            Pick::Left
        } else if c == 'r' || c == 'R' {
            Pick::Right
        } else {
            Pick::Undecided
        }
    }
}

/// What a candidate is, with its name as a sequence of characters.
pub struct AnimeView {
    pub id: i32,
    pub name: Seq<char>,
    pub episodes: Option<i32>,
    pub slot1: bool,
    pub slot2: bool,
    pub slot3: bool,
}

/// A candidate: an item that can take part in a tournament. It is known to
/// the tournament by its id alone.
#[derive(Debug, PartialEq, Eq)]
pub struct Anime {
    pub id: i32,
    pub name: String,
    pub episodes: Option<i32>,
    pub slot1: bool,
    pub slot2: bool,
    pub slot3: bool,
}

impl View for Anime {
    type V = AnimeView;

    open spec fn view(&self) -> AnimeView {
        AnimeView {
            id: self.id,
            name: self.name@,
            episodes: self.episodes,
            slot1: self.slot1,
            slot2: self.slot2,
            slot3: self.slot3,
        }
    }
}

impl Clone for Anime {
    fn clone(&self) -> (copy: Anime)
        ensures
            copy == *self,
    {
        Anime {
            id: self.id,
            name: self.name.clone(),
            episodes: self.episodes,
            slot1: self.slot1,
            slot2: self.slot2,
            slot3: self.slot3,
        }
    }
}

impl Anime {
    /// Whether the candidate belongs to the category.
    pub open spec fn in_slot(self, slot: Slot) -> bool {
        match slot {
            Slot::First => self.slot1,
            Slot::Second => self.slot2,
            Slot::Third => self.slot3,
        }
    }

    /// A candidate that has not been stored yet: its id is 0 and its number
    /// of episodes is unknown.
    pub fn new(name: &str, slot1: bool, slot2: bool, slot3: bool) -> (anime: Anime)
        ensures
            anime@ == (AnimeView { id: 0, name: name@, episodes: None, slot1, slot2, slot3 }),
    {
        Anime { id: 0, name: name.to_owned(), episodes: None, slot1, slot2, slot3 }
    }

    /// Whether the candidate belongs to the category.
    pub fn matches_slot(&self, slot: &Slot) -> (matches: bool)
        ensures
            matches == self.in_slot(*slot),
    {
        match slot {
            Slot::First => self.slot1,
            Slot::Second => self.slot2,
            Slot::Third => self.slot3,
        }
    }
}

/// One entry of a tournament's pool, as it is stored: the tournament's id
/// and the candidate's id.
#[derive(Clone, Copy, Debug, PartialEq, Eq, Structural)]
pub struct TournamentAnime {
    pub tournament: i32,
    pub anime: i32,
}

/// Why the engine refused a request.
#[derive(Clone, Copy, Debug, PartialEq, Eq, Structural)]
pub enum TournamentError {
    /// A tournament or a candidate that was referred to does not exist.
    NotFound,
    /// A decision was to be resolved to `Undecided`, or names a candidate
    /// that cannot be compared any more.
    InvalidOutcome,
}

/// A comparison of two candidates of one tournament.
#[derive(Clone, Copy, Debug, PartialEq, Eq, Structural)]
pub struct Decision {
    pub tournament: i32,
    pub left: i32,
    pub right: i32,
    pub pick: Pick,
}

impl Decision {
    /// Whether the comparison has been judged.
    pub open spec fn resolved(self) -> bool {
        self.pick != Pick::Undecided
    }

    /// Whether the candidate is one of the two that were compared.
    pub open spec fn involves(self, candidate: i32) -> bool {
        self.left == candidate || self.right == candidate
    }

    /// The candidate that was preferred, if the comparison has been judged.
    pub open spec fn winner(self) -> Option<i32> {
        match self.pick {
            Pick::Left => Some(self.left),
            Pick::Right => Some(self.right),
            Pick::Undecided => None,
        }
    }

    /// The candidate that was not preferred, if the comparison has been
    /// judged.
    pub open spec fn loser(self) -> Option<i32> {
        match self.pick {
            Pick::Left => Some(self.right),
            Pick::Right => Some(self.left),
            Pick::Undecided => None,
        }
    }

    /// The same comparison with another outcome.
    pub open spec fn with_pick(self, pick: Pick) -> Decision {
        Decision { tournament: self.tournament, left: self.left, right: self.right, pick }
    }

    /// A pair that waits for its judgement.
    pub fn pending(tournament: i32, left: i32, right: i32) -> (decision: Decision)
        ensures
            decision == (Decision { tournament, left, right, pick: Pick::Undecided }),
    {
        Decision { tournament, left, right, pick: Pick::Undecided }
    }

    /// Whether the comparison has been judged.
    pub fn is_resolved(&self) -> (resolved: bool)
        ensures
            resolved == self.resolved(),
    {
        match self.pick {
            Pick::Undecided => false,
            _ => true,
        }
    }

    /// The candidate that was preferred, if the comparison has been judged.
    pub fn winner_id(&self) -> (winner: Option<i32>)
        ensures
            winner == self.winner(),
    {
        match self.pick {
            Pick::Left => Some(self.left),
            Pick::Right => Some(self.right),
            Pick::Undecided => None,
        }
    }

    /// The candidate that was not preferred, if the comparison has been
    /// judged.
    pub fn loser_id(&self) -> (loser: Option<i32>)
        ensures
            loser == self.loser(),
    {
        match self.pick {
            Pick::Left => Some(self.right),
            Pick::Right => Some(self.left),
            Pick::Undecided => None,
        }
    }

    /// Judges the comparison. The outcome must name a side: `Undecided` is
    /// refused with `InvalidOutcome`.
    pub fn resolve(self, pick: Pick) -> (judged: Result<Decision, TournamentError>)
        ensures
            pick == Pick::Undecided ==> judged == Err::<Decision, TournamentError>(
                TournamentError::InvalidOutcome,
            ),
            pick != Pick::Undecided ==> judged == Ok::<Decision, TournamentError>(
                self.with_pick(pick),
            ),
    {
        match pick {
            Pick::Undecided => Err(TournamentError::InvalidOutcome),
            _ => Ok(Decision { tournament: self.tournament, left: self.left, right: self.right, pick }),
        }
    }
}

} // verus!
