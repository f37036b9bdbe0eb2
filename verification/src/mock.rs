//! A catalogue that is kept in memory.

use crate::catalog::{by_id, for_slot, in_slot, lemma_by_id, TournamentModel};
use crate::filtering::{lemma_filter_empty, lemma_filter_take_next};
use crate::model::{Anime, AnimeView, Slot};
use vstd::prelude::*;

verus! {

/// The sample candidates: seven of the first category, two of them in the
/// second as well, and one of the third.
pub open spec fn sample() -> Seq<AnimeView> {
    seq![
        AnimeView {
            id: 1,
            name: "Aldnoah.Zero"@,
            episodes: Some(24i32),
            slot1: true,
            slot2: false,
            slot3: false,
        },
        AnimeView {
            id: 2,
            name: "Bloom Into You"@,
            episodes: Some(13i32),
            slot1: true,
            slot2: true,
            slot3: false,
        },
        AnimeView {
            id: 3,
            name: "Fairy Gone"@,
            episodes: Some(12i32),
            slot1: true,
            slot2: false,
            slot3: false,
        },
        AnimeView {
            id: 4,
            name: "Iroduku: The World In Colors"@,
            episodes: Some(13i32),
            slot1: true,
            slot2: false,
            slot3: false,
        },
        AnimeView {
            id: 5,
            name: "Bounen no Xamdou"@,
            episodes: Some(26i32),
            slot1: true,
            slot2: true,
            slot3: false,
        },
        AnimeView {
            id: 6,
            name: "Kabaneri of the Iron Fortress"@,
            episodes: Some(12i32),
            slot1: true,
            slot2: false,
            slot3: false,
        },
        AnimeView {
            id: 7,
            name: "Plastic Memories"@,
            episodes: Some(13i32),
            slot1: true,
            slot2: false,
            slot3: false,
        },
        AnimeView {
            id: 8,
            name: "Kaguya S2"@,
            episodes: Some(12i32),
            slot1: false,
            slot2: false,
            slot3: true,
        },
    ]
}

/// The views of the candidates, in their order.
pub open spec fn views_of(catalog: Seq<Anime>) -> Seq<AnimeView> {
    Seq::new(catalog.len(), |i: int| catalog[i]@)
}

/// A catalogue in memory.
pub struct MockModel {
    anime: Vec<Anime>,
}

impl MockModel {
    /// An empty catalogue.
    pub fn new() -> (model: MockModel)
        ensures
            model.catalog() == Seq::<Anime>::empty(),
    {
        MockModel { anime: Vec::new() }
    }

    fn add_sample(
        &mut self,
        id: i32,
        name: &str,
        episodes: i32,
        slot1: bool,
        slot2: bool,
        slot3: bool,
    )
        ensures
            final(self).catalog().len() == old(self).catalog().len() + 1,
            final(self).catalog().drop_last() == old(self).catalog(),
            final(self).catalog().last()@ == (AnimeView {
                id,
                name: name@,
                episodes: Some(episodes),
                slot1,
                slot2,
                slot3,
            }),
    {
        let anime = Anime { id, name: name.to_owned(), episodes: Some(episodes), slot1, slot2, slot3 };
        self.add_anime(anime);
        assert(self.catalog().drop_last() =~= old(self).catalog());
    }

    /// Adds the eight sample candidates at the end, in the order of their
    /// ids.
    pub fn add_mock_anime(&mut self)
        ensures
            final(self).catalog().len() == old(self).catalog().len() + 8,
            final(self).catalog().take(old(self).catalog().len() as int) == old(self).catalog(),
            views_of(final(self).catalog().skip(old(self).catalog().len() as int)) == sample(),
    {
        let ghost before = self.catalog();
        self.add_sample(1, "Aldnoah.Zero", 24, true, false, false);
        let ghost c1 = self.catalog();
        self.add_sample(2, "Bloom Into You", 13, true, true, false);
        let ghost c2 = self.catalog();
        self.add_sample(3, "Fairy Gone", 12, true, false, false);
        let ghost c3 = self.catalog();
        self.add_sample(4, "Iroduku: The World In Colors", 13, true, false, false);
        let ghost c4 = self.catalog();
        self.add_sample(5, "Bounen no Xamdou", 26, true, true, false);
        let ghost c5 = self.catalog();
        self.add_sample(6, "Kabaneri of the Iron Fortress", 12, true, false, false);
        let ghost c6 = self.catalog();
        self.add_sample(7, "Plastic Memories", 13, true, false, false);
        let ghost c7 = self.catalog();
        self.add_sample(8, "Kaguya S2", 12, false, false, true);
        proof {
            let after = self.catalog();
            let n = before.len() as int;
            assert(c7 == after.drop_last());
            assert(c6 == c7.drop_last());
            assert(c5 == c6.drop_last());
            assert(c4 == c5.drop_last());
            assert(c3 == c4.drop_last());
            assert(c2 == c3.drop_last());
            assert(c1 == c2.drop_last());
            assert(before == c1.drop_last());
            assert(after[n + 7] == after.last());
            assert(after[n + 6] == c7.last());
            assert(after[n + 5] == c6.last());
            assert(after[n + 4] == c5.last());
            assert(after[n + 3] == c4.last());
            assert(after[n + 2] == c3.last());
            assert(after[n + 1] == c2.last());
            assert(after[n] == c1.last());
            assert(after.take(n) =~= before);
            assert(views_of(after.skip(n)) =~= sample());
        }
    }
}

impl TournamentModel for MockModel {
    closed spec fn catalog(&self) -> Seq<Anime> {
        self.anime@
    }

    fn add_anime(&mut self, anime: Anime) {
        self.anime.push(anime);
    }

    fn get_anime(&self) -> (all: Vec<Anime>) {
        let mut all: Vec<Anime> = Vec::new();
        let mut i: usize = 0;
        while i < self.anime.len()
            invariant
                i <= self.anime.len(),
                all@ == self.anime@.take(i as int),
            decreases self.anime.len() - i,
        {
            all.push(self.anime[i].clone());
            assert(all@ =~= self.anime@.take(i + 1));
            i = i + 1;
        }
        assert(self.anime@.take(self.anime.len() as int) =~= self.anime@);
        all
    }

    fn get_anime_by_id(&self, id: i32) -> (found: Option<Anime>) {
        let mut i: usize = 0;
        proof {
            lemma_by_id(self.anime@, id);
            assert(self.anime@.skip(0) =~= self.anime@);
        }
        while i < self.anime.len()
            invariant
                i <= self.anime.len(),
                by_id(self.anime@, id) == by_id(self.anime@.skip(i as int), id),
            decreases self.anime.len() - i,
        {
            assert(self.anime@.skip(i as int).drop_first() =~= self.anime@.skip(i + 1));
            if self.anime[i].id == id {
                return Some(self.anime[i].clone());
            }
            i = i + 1;
        }
        None
    }

    fn get_anime_for_slot(&self, slot: Slot) -> (matching: Vec<Anime>) {
        let mut matching: Vec<Anime> = Vec::new();
        let mut i: usize = 0;
        proof {
            lemma_filter_empty(self.anime@.take(0), in_slot(slot));
        }
        while i < self.anime.len()
            invariant
                i <= self.anime.len(),
                matching@ == for_slot(self.anime@.take(i as int), slot),
            decreases self.anime.len() - i,
        {
            proof {
                lemma_filter_take_next(self.anime@, in_slot(slot), i as int);
            }
            if self.anime[i].matches_slot(&slot) {
                matching.push(self.anime[i].clone());
            }
            i = i + 1;
        }
        assert(self.anime@.take(self.anime.len() as int) =~= self.anime@);
        matching
    }
}

} // verus!
