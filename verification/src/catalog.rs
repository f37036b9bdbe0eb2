//! Where candidates come from.
//!
//! A catalogue holds candidates in the order in which they were added. A
//! tournament asks it for the candidates of one category when it is made, and
//! for a candidate by its id when one is to be shown.

use crate::model::{Anime, Slot};
use vstd::prelude::*;

verus! {

/// The predicate that holds of the candidates of the category.
pub open spec fn in_slot(slot: Slot) -> spec_fn(Anime) -> bool {
    |anime: Anime| anime.in_slot(slot)
}

/// The candidates of the category, in the catalogue's order.
pub open spec fn for_slot(catalog: Seq<Anime>, slot: Slot) -> Seq<Anime> {
    catalog.filter(in_slot(slot))
}

/// The first candidate of the catalogue with the id, if there is one.
pub open spec fn by_id(catalog: Seq<Anime>, id: i32) -> Option<Anime>
    decreases catalog.len(),
{
    if catalog.len() == 0 {
        None
    } else if catalog.first().id == id {
        Some(catalog.first())
    } else {
        by_id(catalog.drop_first(), id)
    }
}

/// A candidate is found by its id exactly if the catalogue holds one with
/// that id, and what is found has the id and is in the catalogue.
pub proof fn lemma_by_id(catalog: Seq<Anime>, id: i32)
    ensures
        by_id(catalog, id).is_none() <==> forall|i: int|
            0 <= i < catalog.len() ==> (#[trigger] catalog[i]).id != id,
        by_id(catalog, id).is_some() ==> by_id(catalog, id).unwrap().id == id && catalog.contains(
            by_id(catalog, id).unwrap(),
        ),
    decreases catalog.len(),
{
    if catalog.len() > 0 {
        let rest = catalog.drop_first();
        lemma_by_id(rest, id);
        if catalog.first().id == id {
            assert(catalog[0].id == id);
        } else {
            if by_id(rest, id).is_some() {
                let found = by_id(rest, id).unwrap();
                let j = choose|j: int| 0 <= j < rest.len() && rest[j] == found;
                assert(catalog[j + 1] == found);
            } else {
                assert forall|i: int| 0 <= i < catalog.len() implies (#[trigger] catalog[i]).id
                    != id by {
                    if i > 0 {
                        assert(rest[i - 1].id != id);
                    }
                }
            }
        }
    }
}

/// A source of candidates.
pub trait TournamentModel {
    /// The candidates that the source holds, in the order in which they were
    /// added.
    spec fn catalog(&self) -> Seq<Anime>;

    /// Adds a candidate at the end.
    fn add_anime(&mut self, anime: Anime)
        ensures
            final(self).catalog() == old(self).catalog().push(anime),
    ;

    /// All candidates.
    fn get_anime(&self) -> (all: Vec<Anime>)
        ensures
            all@ == self.catalog(),
    ;

    /// The first candidate with the id. `None` says that there is none.
    fn get_anime_by_id(&self, id: i32) -> (found: Option<Anime>)
        ensures
            found == by_id(self.catalog(), id),
            found.is_none() <==> forall|i: int|
                0 <= i < self.catalog().len() ==> (#[trigger] self.catalog()[i]).id != id,
            found.is_some() ==> found.unwrap().id == id && self.catalog().contains(found.unwrap()),
    ;

    /// The candidates of the category, in the order in which they were
    /// added. A category without candidates gives an empty list.
    fn get_anime_for_slot(&self, slot: Slot) -> (matching: Vec<Anime>)
        ensures
            matching@ == for_slot(self.catalog(), slot),
    ;
}

} // verus!
