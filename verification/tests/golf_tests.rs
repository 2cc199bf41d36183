use std::collections::BTreeMap;
use golf_score_tracker::course::{
    create_august_national_pars,
    create_standard_pars,
    get_course_pars,
    list_available_courses,
};
use golf_score_tracker::error::GolfError;
use golf_score_tracker::hole::Hole;
use golf_score_tracker::player::Player;
use golf_score_tracker::round::Round;
use golf_score_tracker::scorecard::Scorecard;
use golf_score_tracker::validators::{validate_hole_number, validate_par, validate_score};

fn flat_pars(holes: u8, par: u8) -> BTreeMap<u8, u8> {
    let mut pars = BTreeMap::new();
    for hole in 1..=holes {
        pars.insert(hole, par);
    }
    pars
}

#[test]
fn test_standard_pars_nine_hole_correct_count() {
    let result = create_standard_pars(9);
    assert_eq!(result.len(), 9);
}

#[test]
fn test_standard_pars_eighteen_hole_correct_count() {
    let result = create_standard_pars(18);
    assert_eq!(result.len(), 18);
}

#[test]
fn masters_pars_has_18_holes() {
    let pars = create_august_national_pars();
    assert_eq!(pars.len(), 18);
    assert_eq!(*pars.get(&1).unwrap_or(&0), 4);
    assert_eq!(*pars.get(&12).unwrap_or(&0), 3);
}

#[test]
fn course_lookup_falls_back_to_standard() {
    let masters = get_course_pars("Augusta_National", 9);
    assert_eq!(masters.len(), 18);
    let total: u32 = masters.values().map(|&p| p as u32).sum();
    assert_eq!(total, 72);

    let other = get_course_pars("nowhere", 9);
    assert_eq!(other.len(), 9);
    assert_eq!(*other.get(&1).unwrap(), 4);
    assert_eq!(*other.get(&2).unwrap(), 3);
    assert_eq!(*other.get(&3).unwrap(), 5);
}

#[test]
fn course_catalog_lists_five_names() {
    let names = list_available_courses();
    assert_eq!(names.len(), 5);
    assert!(names.contains(&"Augusta_National".to_string()));
    assert!(names.contains(&"St_Andrews".to_string()));
}

#[test]
fn validators_accept_and_reject() {
    assert!(validate_hole_number(1, 9).is_ok());
    assert!(validate_hole_number(9, 9).is_ok());
    assert_eq!(
        validate_hole_number(0, 9),
        Err(GolfError::InvalidHole { hole: 0, max_holes: 9 })
    );
    assert_eq!(
        validate_hole_number(10, 9),
        Err(GolfError::InvalidHole { hole: 10, max_holes: 9 })
    );

    assert!(validate_par(3).is_ok());
    assert!(validate_par(4).is_ok());
    assert!(validate_par(5).is_ok());
    assert_eq!(validate_par(2), Err(GolfError::InvalidPar(2)));
    assert_eq!(validate_par(6), Err(GolfError::InvalidPar(6)));

    assert!(validate_score(1, 1, 4).is_ok());
    assert!(validate_score(15, 1, 4).is_ok());
    assert_eq!(
        validate_score(0, 1, 4),
        Err(GolfError::InvalidScore { score: 0, hole: 1, par: 4 })
    );
    assert_eq!(
        validate_score(16, 2, 5),
        Err(GolfError::InvalidScore { score: 16, hole: 2, par: 5 })
    );
}

#[test]
fn hole_constructor_validates() {
    assert_eq!(Hole::new(3, 4, 18), Ok(Hole { number: 3, par: 4 }));
    assert_eq!(
        Hole::new(19, 4, 18),
        Err(GolfError::InvalidHole { hole: 19, max_holes: 18 })
    );
    assert_eq!(Hole::new(3, 6, 18), Err(GolfError::InvalidPar(6)));
}

#[test]
fn scorecard_accepts_valid_layout() {
    let sc = Scorecard::new(7, 9, flat_pars(9, 4)).unwrap();
    assert_eq!(sc.player_id, 7);
    assert_eq!(sc.max_holes, 9);
    assert!(!sc.is_complete());
    assert_eq!(sc.get_par(3), Some(4));
    assert_eq!(sc.get_score(3), None);
}

#[test]
fn scorecard_rejects_bad_layout() {
    let mut pars = flat_pars(9, 4);
    pars.insert(10, 4);
    assert_eq!(
        Scorecard::new(7, 9, pars),
        Err(GolfError::InvalidHole { hole: 10, max_holes: 9 })
    );

    let mut pars = flat_pars(9, 4);
    pars.insert(5, 6);
    assert_eq!(Scorecard::new(7, 9, pars), Err(GolfError::InvalidPar(6)));
}

#[test]
fn nine_hole_even_round_totals() {
    let mut sc = Scorecard::new(1, 9, flat_pars(9, 4)).unwrap();
    for hole in 1..=9 {
        sc.record_score(hole, 4).unwrap();
    }
    assert!(sc.is_complete());
    assert_eq!(sc.total_strokes(), Some(36));
    assert_eq!(sc.score_relative_to_par(), Some(0));
}

#[test]
fn five_under_round_is_negative() {
    let mut sc = Scorecard::new(1, 9, flat_pars(9, 4)).unwrap();
    let scores = [3, 3, 3, 3, 3, 4, 4, 4, 4];
    for (i, &s) in scores.iter().enumerate() {
        sc.record_score((i + 1) as u8, s).unwrap();
    }
    assert_eq!(sc.score_relative_to_par(), Some(-5));
}

#[test]
fn recording_sixteen_strokes_is_rejected() {
    let mut sc = Scorecard::new(1, 9, flat_pars(9, 4)).unwrap();
    sc.record_score(1, 4).unwrap();
    let before = sc.clone();
    assert_eq!(
        sc.record_score(2, 16),
        Err(GolfError::InvalidScore { score: 16, hole: 2, par: 4 })
    );
    assert_eq!(sc, before);
}

#[test]
fn recording_hole_ten_on_nine_hole_card_is_rejected() {
    let mut sc = Scorecard::new(1, 9, flat_pars(9, 4)).unwrap();
    assert_eq!(
        sc.record_score(10, 4),
        Err(GolfError::InvalidHole { hole: 10, max_holes: 9 })
    );
}

#[test]
fn recording_unknown_hole_is_a_defensive_error() {
    let mut pars = flat_pars(9, 4);
    pars.remove(&5);
    let mut sc = Scorecard::new(1, 9, pars).unwrap();
    assert_eq!(
        sc.record_score(5, 4),
        Err(GolfError::Custom("unknown hole for this card".to_string()))
    );
}

#[test]
fn recording_twice_is_idempotent() {
    let mut once = Scorecard::new(1, 9, flat_pars(9, 4)).unwrap();
    once.record_score(3, 5).unwrap();

    let mut twice = once.clone();
    twice.record_score(3, 5).unwrap();
    assert_eq!(once, twice);

    twice.record_score(3, 2).unwrap();
    assert_eq!(twice.get_score(3), Some(2));
}

#[test]
fn totals_undefined_until_complete() {
    let mut sc = Scorecard::new(1, 9, flat_pars(9, 4)).unwrap();
    for hole in 1..=8 {
        sc.record_score(hole, 4).unwrap();
        assert!(!sc.is_complete());
        assert_eq!(sc.total_strokes(), None);
        assert_eq!(sc.score_relative_to_par(), None);
    }
    sc.record_score(9, 4).unwrap();
    assert!(sc.is_complete());
    assert!(sc.total_strokes().is_some());
    assert!(sc.score_relative_to_par().is_some());
}

#[test]
fn error_predicates_classify_variants() {
    let not_found = GolfError::PlayerNotFound("Alice Bob Smith".to_string());
    assert!(not_found.is_not_found());
    assert!(!not_found.is_validation_error());

    let validation = GolfError::InvalidPar(7);
    assert!(validation.is_validation_error());
    assert!(!validation.is_not_found());

    assert!(GolfError::RoundNotFound(4).is_not_found());
    assert!(!GolfError::IoError("boom".to_string()).is_validation_error());
    assert!(!GolfError::SerializationError("bad".to_string()).is_not_found());
    assert!(!GolfError::Custom("x".to_string()).is_not_found());
}

#[test]
fn invalid_score_error() {
    let error = GolfError::InvalidScore { score: 20, hole: 5, par: 4 };
    let result = error.message();

    assert_eq!(
        result,
        "Invalid score 20 for hole 5 (par 4). Score must be between 1 and 15."
    );
}

#[test]
fn invalid_hole_error_message() {
    let error = GolfError::InvalidHole { hole: 19, max_holes: 9 };
    let result = error.message();

    assert_eq!(result, "Hole number 19 is invalid. Must be between 1 and 9.");
}

#[test]
fn error_classification() {
    let not_found = GolfError::PlayerNotFound("Alice Bob Smith".to_string());
    assert!(not_found.is_not_found());
    assert!(!not_found.is_validation_error());

    let validation = GolfError::InvalidPar(7);
    assert!(validation.is_validation_error());
    assert!(!validation.is_not_found());
}

#[test]
fn player_name_is_trimmed_and_must_be_nonempty() {
    let player = Player::new("  Tiger Woods  ", Some(0)).unwrap();
    assert_eq!(player.name, "Tiger Woods");
    assert_eq!(player.handicap_tenths, Some(0));

    assert_eq!(
        Player::new("   ", None),
        Err(GolfError::Custom("Player name cannot be empty".to_string()))
    );
}

#[test]
fn round_metadata_keeps_course_and_holes() {
    let round = Round::new("  Pebble Beach  ", 18);
    assert_eq!(round.course, "Pebble Beach");
    assert_eq!(round.max_holes, 18);
}
