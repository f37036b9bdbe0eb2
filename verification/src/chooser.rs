//! Where the engine gets its tie-breaks from.
//!
//! A tournament breaks ties by chance. The source of that chance is handed
//! to the engine as a value, so that a run can be replayed: the engine does
//! not care whether a choice was drawn or read from a script.

use crate::model::Pick;
use rand::seq::SliceRandom;
use rand::Rng;
use vstd::prelude::*;

verus! {

/// Draws one of the items from the thread's random number generator.
///
/// Calls `rand::seq::SliceRandom::choose` on the items with
/// `rand::thread_rng()`. Nothing is proved of it. The contract claims what
/// holds of every draw: from no items nothing is drawn, and from some items
/// one that is among them.
#[verifier::external_body]
fn draw_at_random(items: &Vec<i32>) -> (drawn: Option<i32>)
    ensures
        items@.len() == 0 ==> drawn.is_none(),
        items@.len() > 0 ==> drawn.is_some() && items@.contains(drawn.unwrap()),
{
    let mut rng = rand::thread_rng();
    items.choose(&mut rng).copied()
}

/// Draws a truth value from the thread's random number generator.
///
/// Calls `rand::Rng::gen::<bool>` on `rand::thread_rng()`. Nothing is proved
/// of it, and nothing is claimed: either value may come.
#[verifier::external_body]
fn flip_at_random() -> (heads: bool) {
    rand::thread_rng().gen::<bool>()
}

/// A source of choices.
pub enum Chooser {
    /// Every choice is drawn uniformly at random.
    Random,
    /// Choices are read from a script. Each entry of `draws` stands for the
    /// item at that position, counted round the items in a circle, or for a
    /// side: left if it is even, right if it is odd. When the script is used
    /// up, the first item is chosen and the left side preferred.
    Scripted { draws: Vec<usize>, next: usize },
}

impl Chooser {
    /// The number that a scripted source reads next: the entry under the
    /// cursor, or 0 behind the end of the script.
    pub open spec fn draw(self) -> nat {
        match self {
            Chooser::Random => 0,
            Chooser::Scripted { draws, next } => if next < draws@.len() {
                draws@[next as int] as nat
            } else {
                0
            },
        }
    }

    /// Whether the source may answer `chosen` when asked to choose among
    /// `items`. Nothing can be chosen from no items. A random source may
    /// choose any of the items, a scripted one only the item that its script
    /// names.
    pub open spec fn permits(self, items: Seq<i32>, chosen: Option<i32>) -> bool {
        if items.len() == 0 {
            chosen.is_none()
        } else {
            match self {
                Chooser::Random => chosen.is_some() && items.contains(chosen.unwrap()),
                Chooser::Scripted { .. } => chosen == Some(
                    items[(self.draw() % items.len()) as int],
                ),
            }
        }
    }

    /// The source after one draw. A scripted source moves its cursor by one,
    /// unless the script is used up.
    pub open spec fn advanced(self) -> Chooser {
        match self {
            Chooser::Random => self,
            Chooser::Scripted { draws, next } => if next < draws@.len() {
                Chooser::Scripted { draws, next: (next + 1) as usize }
            } else {
                self
            },
        }
    }

    /// The source after it has chosen among `items`: one draw further, unless
    /// there was nothing to choose from.
    pub open spec fn after(self, items: Seq<i32>) -> Chooser {
        if items.len() > 0 {
            self.advanced()
        } else {
            self
        }
    }

    /// Whether the source may answer `side` when asked which of two
    /// candidates is preferred. The answer always names a side. A random
    /// source may name either, a scripted one names the left side on an even
    /// number and the right side on an odd one.
    pub open spec fn permits_side(self, side: Pick) -> bool {
        match self {
            Chooser::Random => side != Pick::Undecided,
            Chooser::Scripted { .. } => side == if self.draw() % 2 == 0 {
                Pick::Left
            } else {
                Pick::Right
            },
        }
    }

    /// A source that draws at random.
    pub fn random() -> (chooser: Chooser)
        ensures
            chooser == Chooser::Random,
    {
        Chooser::Random
    }

    /// A source that reads its choices from `draws`, starting at the first.
    pub fn scripted(draws: Vec<usize>) -> (chooser: Chooser)
        ensures
            chooser == (Chooser::Scripted { draws, next: 0 }),
    {
        Chooser::Scripted { draws, next: 0 }
    }

    /// Chooses one of the items, or nothing where there are none.
    pub fn choose_from(&mut self, items: &Vec<i32>) -> (chosen: Option<i32>)
        ensures
            old(self).permits(items@, chosen),
            *final(self) == old(self).after(items@),
            chosen.is_some() <==> items@.len() > 0,
            chosen.is_some() ==> items@.contains(chosen.unwrap()),
    {
        match self {
            Chooser::Random => draw_at_random(items),
            Chooser::Scripted { draws, next } => {
                if items.len() == 0 {
                    None
                } else {
                    let count: usize = items.len();
                    let mut number: usize = 0;
                    if *next < draws.len() {
                        number = draws[*next];
                        *next = *next + 1;
                    }
                    Some(items[number % count])
                }
            },
        }
    }

    /// Prefers one of two candidates: the left or the right.
    pub fn pick_side(&mut self) -> (side: Pick)
        ensures
            old(self).permits_side(side),
            *final(self) == old(self).advanced(),
            side != Pick::Undecided,
    {
        match self {
            Chooser::Random => if flip_at_random() {
                Pick::Right
            } else {
                Pick::Left
            },
            Chooser::Scripted { draws, next } => {
                let mut number: usize = 0;
                if *next < draws.len() {
                    number = draws[*next];
                    *next = *next + 1;
                }
                if number % 2 == 0 {
                    Pick::Left
                } else {
                    Pick::Right
                }
            },
        }
    }
}

} // verus!
