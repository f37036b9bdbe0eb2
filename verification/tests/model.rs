use anime_tournament::model::{Anime, Decision, Pick, Slot, TournamentAnime, TournamentError};

#[test]
fn slot_names_are_lower_case_words() {
    assert_eq!(Slot::First.name(), "first");
    assert_eq!(Slot::Second.name(), "second");
    assert_eq!(Slot::Third.name(), "third");
}

#[test]
fn pick_names_are_lower_case_words() {
    assert_eq!(Pick::Left.name(), "left");
    assert_eq!(Pick::Right.name(), "right");
    assert_eq!(Pick::Undecided.name(), "undecided");
}

#[test]
fn stored_answers_read_as_picks() {
    assert_eq!(Pick::to_pick(Some(true)), Pick::Left);
    assert_eq!(Pick::to_pick(Some(false)), Pick::Right);
    assert_eq!(Pick::to_pick(None), Pick::Undecided);
}

#[test]
fn picks_are_stored_as_answers() {
    assert_eq!(Pick::to_opt(Pick::Left), Some(true));
    assert_eq!(Pick::to_opt(Pick::Right), Some(false));
    assert_eq!(Pick::to_opt(Pick::Undecided), None);
}

#[test]
fn storing_and_reading_a_pick_gives_it_back() {
    for pick in [Pick::Left, Pick::Right, Pick::Undecided] {
        assert_eq!(Pick::to_pick(Pick::to_opt(pick)), pick);
    }
    for answer in [Some(true), Some(false), None] {
        assert_eq!(Pick::to_opt(Pick::to_pick(answer)), answer);
    }
}

#[test]
fn typed_answers_are_parsed() {
    assert_eq!(Pick::parse("l"), Pick::Left);
    assert_eq!(Pick::parse("L"), Pick::Left);
    assert_eq!(Pick::parse("r"), Pick::Right);
    assert_eq!(Pick::parse("R"), Pick::Right);
}

#[test]
fn other_input_decides_nothing() {
    assert_eq!(Pick::parse(""), Pick::Undecided);
    assert_eq!(Pick::parse("left"), Pick::Undecided);
    assert_eq!(Pick::parse("lr"), Pick::Undecided);
    assert_eq!(Pick::parse(" l"), Pick::Undecided);
    assert_eq!(Pick::parse("x"), Pick::Undecided);
    assert_eq!(Pick::parse("\u{e9}"), Pick::Undecided);
}

#[test]
fn a_new_candidate_has_no_id_yet() {
    let anime = Anime::new("Planetes", false, true, false);
    assert_eq!(anime.id, 0);
    assert_eq!(anime.name, "Planetes");
    assert_eq!(anime.episodes, None);
    assert!(!anime.slot1);
    assert!(anime.slot2);
    assert!(!anime.slot3);
}

#[test]
fn a_candidate_matches_the_slots_it_is_in() {
    let anime = Anime::new("Planetes", true, false, true);
    assert!(anime.matches_slot(&Slot::First));
    assert!(!anime.matches_slot(&Slot::Second));
    assert!(anime.matches_slot(&Slot::Third));
}

#[test]
fn a_clone_of_a_candidate_is_equal_to_it() {
    let anime = Anime {
        id: 12,
        name: String::from("Mushishi"),
        episodes: Some(26),
        slot1: false,
        slot2: true,
        slot3: true,
    };
    let copy = anime.clone();
    assert_eq!(copy, anime);
    assert_eq!(copy.name, "Mushishi");
    assert_eq!(copy.episodes, Some(26));
}

#[test]
fn a_pending_decision_is_undecided() {
    let decision = Decision::pending(3, 10, 20);
    assert_eq!(decision, Decision { tournament: 3, left: 10, right: 20, pick: Pick::Undecided });
    assert!(!decision.is_resolved());
    assert_eq!(decision.winner_id(), None);
    assert_eq!(decision.loser_id(), None);
}

#[test]
fn resolving_to_the_left_keeps_the_left_candidate() {
    let judged = Decision::pending(3, 10, 20).resolve(Pick::Left);
    assert_eq!(judged, Ok(Decision { tournament: 3, left: 10, right: 20, pick: Pick::Left }));
    let judged = judged.unwrap();
    assert!(judged.is_resolved());
    assert_eq!(judged.winner_id(), Some(10));
    assert_eq!(judged.loser_id(), Some(20));
}

#[test]
fn resolving_to_the_right_keeps_the_right_candidate() {
    let judged = Decision::pending(3, 10, 20).resolve(Pick::Right);
    assert_eq!(judged, Ok(Decision { tournament: 3, left: 10, right: 20, pick: Pick::Right }));
    let judged = judged.unwrap();
    assert_eq!(judged.winner_id(), Some(20));
    assert_eq!(judged.loser_id(), Some(10));
}

#[test]
fn resolving_to_undecided_is_an_invalid_outcome() {
    let pending = Decision::pending(3, 10, 20);
    assert_eq!(pending.resolve(Pick::Undecided), Err(TournamentError::InvalidOutcome));
    let judged = pending.resolve(Pick::Left).unwrap();
    assert_eq!(judged.resolve(Pick::Undecided), Err(TournamentError::InvalidOutcome));
}

#[test]
fn a_judged_decision_can_be_judged_again() {
    let judged = Decision::pending(3, 10, 20).resolve(Pick::Left).unwrap();
    assert_eq!(
        judged.resolve(Pick::Right),
        Ok(Decision { tournament: 3, left: 10, right: 20, pick: Pick::Right })
    );
}

#[test]
fn pool_entries_compare_by_their_fields() {
    let entry = TournamentAnime { tournament: 1, anime: 2 };
    assert_eq!(entry, TournamentAnime { tournament: 1, anime: 2 });
    assert_ne!(entry, TournamentAnime { tournament: 2, anime: 1 });
}
