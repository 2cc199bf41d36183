use golf_score_tracker::baseball::{BattingStats, StatError};

#[test]
fn test_invalid_stats_error_display() {
    let error = StatError::InvalidStats("At bats cannot be negative".to_string());
    assert_eq!(error.message(), "Invalid Stats: At bats cannot be negative");
}

#[test]
fn test_player_not_found_error_display() {
    let error = StatError::PlayerNotFound("Mick Letofsky".to_string());
    assert_eq!(error.message(), "Player Not Found: Mick Letofsky");
}

#[test]
fn test_io_error_display() {
    let error = StatError::IoError("Failed to read file".to_string());
    assert_eq!(error.message(), "I/O Error: Failed to read file");
}

#[test]
fn test_from_io_error_conversion() {
    // Create a real io::Error
    let io_error = std::io::Error::new(std::io::ErrorKind::NotFound, "players.json not found");

    // Convert it to StatError using the From trait
    let stat_error: StatError = io_error.into();

    // Verify it's the right variant
    match stat_error {
        StatError::IoError(msg) => {
            assert!(msg.contains("players.json"));
            assert!(msg.contains("not found"));
        },
        _ => panic!("Expected IoError variant"),
    }
}

#[test]
fn new_batting_stats_start_at_zero() {
    let result = BattingStats::new();

    assert_eq!(result.at_bats, 0);
    assert_eq!(result.hits, 0);
    assert_eq!(result.singles, 0);
    assert_eq!(result.doubles, 0);
    assert_eq!(result.triples, 0);
    assert_eq!(result.home_runs, 0);
    assert_eq!(result.runs_batted_in, 0);
    assert_eq!(result.walks, 0);
    assert_eq!(result.strikeouts, 0);
}
