use golf_score_tracker::digits::{i64_to_decimal, u128_to_decimal};
use golf_score_tracker::error::GolfError;

#[test]
fn unsigned_decimal_rendering() {
    assert_eq!(u128_to_decimal(0), "0");
    assert_eq!(u128_to_decimal(7), "7");
    assert_eq!(u128_to_decimal(10), "10");
    assert_eq!(u128_to_decimal(255), "255");
    assert_eq!(u128_to_decimal(340282366920938463463374607431768211455), "340282366920938463463374607431768211455");
}

#[test]
fn signed_decimal_rendering() {
    assert_eq!(i64_to_decimal(0), "0");
    assert_eq!(i64_to_decimal(-1), "-1");
    assert_eq!(i64_to_decimal(1234), "1234");
    assert_eq!(i64_to_decimal(-9223372036854775808), "-9223372036854775808");
}

#[test]
fn negative_score_message_keeps_the_sign() {
    let error = GolfError::InvalidScore { score: -3, hole: 2, par: 4 };
    assert_eq!(
        error.message(),
        "Invalid score -3 for hole 2 (par 4). Score must be between 1 and 15."
    );
}

#[test]
fn remaining_variant_messages() {
    assert_eq!(
        GolfError::PlayerNotFound("Ben Hogan".to_string()).message(),
        "Player 'Ben Hogan' not found"
    );
    assert_eq!(
        GolfError::RoundNotFound(31).message(),
        "Round with ID 31 not found"
    );
    assert_eq!(GolfError::InvalidPar(7).message(), "Par 7 is invalid. Must be 3, 4, or 5.");
    assert_eq!(
        GolfError::ScorecardComplete(8).message(),
        "Scorecard for round 8 is already complete"
    );
    assert_eq!(
        GolfError::SerializationError("truncated".to_string()).message(),
        "Failed to serialize/deserialize data"
    );
    assert_eq!(GolfError::IoError("denied".to_string()).message(), "File operation failed");
    assert_eq!(GolfError::custom("odd".to_string()).message(), "odd");
}
