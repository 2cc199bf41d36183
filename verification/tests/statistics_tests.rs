use std::collections::BTreeMap;
use golf_score_tracker::scorecard::Scorecard;
use golf_score_tracker::statistics::PlayerStatistics;

fn create_test_scorecard(player_id: u128, scores: Vec<u8>, pars: Vec<u8>) -> Scorecard {
    let mut map_pars = BTreeMap::new();
    for (hole, par) in pars.iter().enumerate() {
        map_pars.insert((hole + 1) as u8, *par);
    }

    let mut scorecard = Scorecard::new(player_id, scores.len() as u8, map_pars)
        .expect("Failed to create a test scorecard");

    for (hole, strokes) in scores.iter().enumerate() {
        scorecard
            .record_score((hole + 1) as u8, *strokes)
            .expect("Failed to record score");
    }

    scorecard
}

/// The exact arithmetic mean the aggregator's sum and count determine.
fn average_of(stats: &PlayerStatistics) -> Option<f64> {
    if stats.completed_rounds > 0 {
        Some(stats.completed_score_sum as f64 / stats.completed_rounds as f64)
    } else {
        None
    }
}

#[test]
fn empty_scorecard() {
    let scorecards: Vec<Scorecard> = vec![];
    let stats = PlayerStatistics::from_scorecards(&scorecards);

    assert_eq!(stats.total_rounds, 0);
    assert_eq!(stats.completed_rounds, 0);
    assert_eq!(average_of(&stats), None);
    assert_eq!(stats.best_score, None);
    assert_eq!(stats.worst_score, None);
}

#[test]
fn single_scorecard() {
    let player_id = uuid::Uuid::new_v4().as_u128();

    // 9-hole round: par 4s, player shoots 36 (even par)
    let scores = vec![4, 4, 4, 4, 4, 4, 4, 4, 4];
    let pars = vec![4, 4, 4, 4, 4, 4, 4, 4, 4];

    let scorecard = create_test_scorecard(player_id, scores, pars);
    let stats = PlayerStatistics::from_scorecards(&[scorecard]);

    assert_eq!(stats.total_rounds, 1);
    assert_eq!(stats.completed_rounds, 1);
    assert_eq!(average_of(&stats), Some(36.0));
    assert_eq!(stats.best_score, Some(36));
    assert_eq!(stats.worst_score, Some(36));
    assert_eq!(stats.total_under_par, 0);
    assert_eq!(stats.total_over_par, 0);
    assert_eq!(stats.pars, 9);
}

#[test]
fn calculates_average() {
    let player_id = uuid::Uuid::new_v4().as_u128();
    let card1 = create_test_scorecard(
        player_id,
        vec![4, 3, 4, 3, 4, 4, 3, 4, 4],
        vec![4, 4, 4, 4, 4, 4, 4, 4, 4],
    );
    let card2 = create_test_scorecard(
        player_id,
        vec![5, 4, 5, 4, 4, 4, 4, 5, 3],
        vec![4, 4, 4, 4, 4, 4, 4, 4, 4],
    );

    let stats = PlayerStatistics::from_scorecards(&[card1, card2]);

    assert_eq!(stats.total_rounds, 2);
    assert_eq!(stats.completed_rounds, 2);

    // Average: (33 + 38) / 2 = 35.5
    assert_eq!(average_of(&stats), Some(35.5));
    assert_eq!(stats.best_score, Some(33));
    assert_eq!(stats.worst_score, Some(38));
}

#[test]
fn under_par_scorecard() {
    let player_id = uuid::Uuid::new_v4().as_u128();
    let scorecard = create_test_scorecard(
        player_id,
        vec![3, 3, 3, 3, 3, 4, 4, 4, 4],
        vec![4, 4, 4, 4, 4, 4, 4, 4, 4],
    );

    let stats = PlayerStatistics::from_scorecards(&[scorecard]);

    assert_eq!(stats.total_under_par, -5);
    assert_eq!(stats.total_over_par, 0);
}

#[test]
fn over_par_scorecard() {
    let player_id = uuid::Uuid::new_v4().as_u128();
    let scorecard = create_test_scorecard(
        player_id,
        vec![5, 5, 5, 5, 5, 4, 4, 4, 4],
        vec![4, 4, 4, 4, 4, 4, 4, 4, 4],
    );

    let stats = PlayerStatistics::from_scorecards(&[scorecard]);

    assert_eq!(stats.total_under_par, 0);
    assert_eq!(stats.total_over_par, 5);
}

#[test]
fn individual_hole_statistics() {
    let player_id = uuid::Uuid::new_v4().as_u128();

    let scorecard = create_test_scorecard(
        player_id,
        vec![
            2,  // eagle (par 4)
            3,  // birdie (par 4)
            4,  // par (par 4)
            5,  // bogey (par 4)
            6,  // double bogey (par 4)
            3,  // par (par 3)
            4,  // birdie (par 5)
            5,  // par (par 5)
            4,  // par (par 4)
        ],
        vec![4, 4, 4, 4, 4, 3, 5, 5, 4],
    );

    let stats = PlayerStatistics::from_scorecards(&[scorecard]);

    assert_eq!(stats.eagles, 1);
    assert_eq!(stats.birdies, 2);
    assert_eq!(stats.pars, 4);
    assert_eq!(stats.bogeys, 1);
    assert_eq!(stats.double_bogeys, 1);
}

#[test]
fn test_mixed_performance_rounds() {
    let player_id = uuid::Uuid::new_v4().as_u128();
    let great_round = create_test_scorecard(
        player_id,
        vec![3, 3, 3, 4, 4, 4, 4, 4, 4],
        vec![4, 4, 4, 4, 4, 4, 4, 4, 4],
    );
    let average_round = create_test_scorecard(
        player_id,
        vec![4, 4, 5, 4, 4, 4, 4, 4, 4],
        vec![4, 4, 4, 4, 4, 4, 4, 4, 4],
    );

    let poor_round = create_test_scorecard(
        player_id,
        vec![5, 5, 5, 4, 4, 5, 4, 5, 4],
        vec![4, 4, 4, 4, 4, 4, 4, 4, 4],
    );

    let stats = PlayerStatistics::from_scorecards(&[great_round, average_round, poor_round]);

    assert_eq!(stats.total_rounds, 3);
    assert_eq!(stats.completed_rounds, 3);
    assert_eq!(stats.best_score, Some(33));
    assert_eq!(stats.worst_score, Some(41));
    // Average: (33 + 37 + 41) / 3 = 37.0
    assert_eq!(average_of(&stats), Some(37.0));
    assert_eq!(stats.total_under_par, -3);
    assert_eq!(stats.total_over_par, 6);
}

#[test]
fn statistics_with_different_course_lengths() {
    let player_id = uuid::Uuid::new_v4().as_u128();
    let nine_hole = create_test_scorecard(
        player_id,
        vec![3, 4, 4, 4, 4, 4, 4, 4, 5],
        vec![3, 4, 4, 4, 4, 4, 4, 4, 5],
    );
    let eighteen_hole = create_test_scorecard(
        player_id,
        vec![4, 3, 4, 4, 4, 4, 4, 4, 4, 4, 4, 4, 4, 4, 4, 4, 5, 4],
        vec![4, 3, 4, 4, 4, 4, 4, 4, 4, 4, 4, 4, 4, 4, 4, 4, 5, 4],
    );

    let results = PlayerStatistics::from_scorecards(&[nine_hole, eighteen_hole]);

    assert_eq!(results.total_rounds, 2);
    assert_eq!(results.completed_rounds, 2);
    assert_eq!(results.pars, 27);
}

#[test]
fn incomplete_rounds_are_counted_but_not_scored() {
    let player_id = 11u128;
    let mut pars = BTreeMap::new();
    for hole in 1..=9u8 {
        pars.insert(hole, 4);
    }
    let mut partial = Scorecard::new(player_id, 9, pars).unwrap();
    partial.record_score(1, 4).unwrap();

    let complete = create_test_scorecard(
        player_id,
        vec![4, 4, 4, 4, 4, 4, 4, 4, 4],
        vec![4, 4, 4, 4, 4, 4, 4, 4, 4],
    );

    let stats = PlayerStatistics::from_scorecards(&[partial, complete]);
    assert_eq!(stats.total_rounds, 2);
    assert_eq!(stats.completed_rounds, 1);
    assert_eq!(stats.completed_score_sum, 36);
    assert_eq!(stats.best_score, Some(36));
    // One complete card with all pars: 9 classified holes in total.
    assert_eq!(stats.eagles + stats.birdies + stats.pars + stats.bogeys + stats.double_bogeys, 9);
}
