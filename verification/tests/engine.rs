use anime_tournament::chooser::Chooser;
use anime_tournament::engine::{
    comparison_count, is_eliminated, least_compared_of, next_lowest_pick, remaining_candidates,
    without_candidate,
};
use anime_tournament::model::{Decision, Pick};

fn judged(left: i32, right: i32, pick: Pick) -> Decision {
    Decision { tournament: 1, left, right, pick }
}

#[test]
fn the_side_that_was_not_picked_is_eliminated() {
    let log = vec![judged(1, 2, Pick::Left), judged(3, 4, Pick::Right)];
    assert!(!is_eliminated(&log, 1));
    assert!(is_eliminated(&log, 2));
    assert!(is_eliminated(&log, 3));
    assert!(!is_eliminated(&log, 4));
    assert!(!is_eliminated(&log, 5));
}

#[test]
fn an_undecided_pair_eliminates_nobody() {
    let log = vec![judged(1, 2, Pick::Undecided)];
    assert!(!is_eliminated(&log, 1));
    assert!(!is_eliminated(&log, 2));
    assert_eq!(remaining_candidates(&vec![1, 2, 3], &log), vec![1, 2, 3]);
}

#[test]
fn the_remaining_are_the_pool_without_the_losers() {
    let pool = vec![5, 1, 4, 2, 3];
    assert_eq!(remaining_candidates(&pool, &Vec::new()), vec![5, 1, 4, 2, 3]);
    let log = vec![judged(1, 2, Pick::Left), judged(4, 5, Pick::Right)];
    assert_eq!(remaining_candidates(&pool, &log), vec![5, 1, 3]);
}

#[test]
fn a_loser_outside_the_pool_changes_nothing() {
    let log = vec![judged(9, 8, Pick::Left)];
    assert_eq!(remaining_candidates(&vec![1, 2], &log), vec![1, 2]);
}

#[test]
fn the_remaining_do_not_depend_on_the_order_of_the_log() {
    let pool = vec![1, 2, 3, 4, 5, 6];
    let a = judged(1, 2, Pick::Left);
    let b = judged(3, 4, Pick::Right);
    let c = judged(1, 4, Pick::Left);
    let expected = vec![1, 5, 6];
    assert_eq!(remaining_candidates(&pool, &vec![a, b, c]), expected);
    assert_eq!(remaining_candidates(&pool, &vec![a, c, b]), expected);
    assert_eq!(remaining_candidates(&pool, &vec![b, a, c]), expected);
    assert_eq!(remaining_candidates(&pool, &vec![b, c, a]), expected);
    assert_eq!(remaining_candidates(&pool, &vec![c, a, b]), expected);
    assert_eq!(remaining_candidates(&pool, &vec![c, b, a]), expected);
}

#[test]
fn the_remaining_do_not_depend_on_replayed_decisions() {
    let pool = vec![1, 2, 3, 4, 5, 6];
    let a = judged(1, 2, Pick::Left);
    let b = judged(3, 4, Pick::Right);
    let once = remaining_candidates(&pool, &vec![a, b]);
    assert_eq!(once, vec![1, 4, 5, 6]);
    assert_eq!(remaining_candidates(&pool, &vec![a, b, a, b, b]), once);
    assert_eq!(remaining_candidates(&pool, &vec![b, a, judged(5, 6, Pick::Undecided), a]), once);
}

#[test]
fn every_occurrence_of_a_candidate_is_taken_out() {
    assert_eq!(without_candidate(&vec![1, 2, 3, 2], 2), vec![1, 3]);
    assert_eq!(without_candidate(&vec![1, 2, 3], 7), vec![1, 2, 3]);
    assert_eq!(without_candidate(&vec![4], 4), Vec::<i32>::new());
    assert_eq!(without_candidate(&Vec::new(), 4), Vec::<i32>::new());
}

#[test]
fn comparisons_count_judged_decisions_on_either_side() {
    let log = vec![
        judged(1, 2, Pick::Left),
        judged(3, 1, Pick::Right),
        judged(1, 4, Pick::Undecided),
        judged(5, 6, Pick::Left),
        judged(1, 7, Pick::Right),
    ];
    assert_eq!(comparison_count(&log, 1), 3);
    assert_eq!(comparison_count(&log, 2), 1);
    assert_eq!(comparison_count(&log, 3), 1);
    assert_eq!(comparison_count(&log, 4), 0);
    assert_eq!(comparison_count(&log, 5), 1);
    assert_eq!(comparison_count(&log, 7), 1);
    assert_eq!(comparison_count(&log, 8), 0);
    assert_eq!(comparison_count(&Vec::new(), 1), 0);
}

#[test]
fn a_decision_of_a_candidate_with_itself_counts_once() {
    let log = vec![judged(1, 1, Pick::Left)];
    assert_eq!(comparison_count(&log, 1), 1);
}

#[test]
fn the_least_compared_are_those_with_the_lowest_count() {
    let log = vec![judged(1, 2, Pick::Left), judged(3, 4, Pick::Left), judged(1, 3, Pick::Left)];
    assert_eq!(least_compared_of(&vec![1, 5, 6], &log), vec![5, 6]);
    assert_eq!(least_compared_of(&vec![1, 3], &log), vec![1, 3]);
    assert_eq!(least_compared_of(&vec![1, 2, 3], &log), vec![2]);
    assert_eq!(least_compared_of(&vec![6, 5], &log), vec![6, 5]);
    assert_eq!(least_compared_of(&vec![1], &log), vec![1]);
    assert_eq!(least_compared_of(&Vec::new(), &log), Vec::<i32>::new());
}

#[test]
fn the_lowest_count_may_be_large() {
    let mut log = Vec::new();
    for _ in 0..1200 {
        log.push(judged(1, 2, Pick::Left));
    }
    log.push(judged(1, 3, Pick::Left));
    assert_eq!(comparison_count(&log, 1), 1201);
    assert_eq!(comparison_count(&log, 2), 1200);
    assert_eq!(least_compared_of(&vec![1, 2], &log), vec![2]);
    assert_eq!(least_compared_of(&vec![1], &log), vec![1]);
}

#[test]
fn the_next_pick_is_among_the_least_compared() {
    let log = vec![judged(1, 2, Pick::Left)];
    let candidates = vec![1, 3, 4];
    let mut random = Chooser::random();
    for _ in 0..100 {
        let pick = next_lowest_pick(&candidates, &log, &mut random).unwrap();
        assert!(pick == 3 || pick == 4);
    }
    let mut script = Chooser::scripted(vec![1, 0, 5]);
    assert_eq!(next_lowest_pick(&candidates, &log, &mut script), Some(4));
    assert_eq!(next_lowest_pick(&candidates, &log, &mut script), Some(3));
    assert_eq!(next_lowest_pick(&candidates, &log, &mut script), Some(4));
}

#[test]
fn there_is_no_pick_among_no_candidates() {
    let log = vec![judged(1, 2, Pick::Left)];
    assert_eq!(next_lowest_pick(&Vec::new(), &log, &mut Chooser::random()), None);
    assert_eq!(next_lowest_pick(&Vec::new(), &log, &mut Chooser::scripted(vec![1])), None);
}
