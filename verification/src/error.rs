//! Error taxonomy for the golf score tracker: validation failures,
//! lookup misses, and persistence failures share one enum.

use vstd::prelude::*;
use crate::digits::{dec_rep, signed_dec_rep, i64_to_decimal, u128_to_decimal};
use vstd::string::StringExecFns;

verus! {

/// Unified error type for scorecard validation, lookups and persistence.
#[derive(Debug, Clone, PartialEq, Eq)]
pub enum GolfError {
    /// Stroke count outside the accepted 1..=15 range; carries the offending
    /// score together with the hole and its par for message building.
    InvalidScore { score: i32, hole: u8, par: u8 },
    /// Hole number outside 1..=max_holes.
    InvalidHole { hole: u8, max_holes: u8 },
    /// A player lookup missed where absence was unexpected.
    PlayerNotFound(String),
    /// A round lookup missed where absence was unexpected.
    RoundNotFound(u128),
    /// Par value outside {3, 4, 5}.
    InvalidPar(u8),
    /// The scorecard for this round is already complete.
    ScorecardComplete(u128),
    /// A persisted record could not be decoded; carries a description.
    SerializationError(String),
    /// An underlying file operation failed; carries a description.
    IoError(String),
    /// Escape hatch for miscellaneous conditions (e.g. an empty player name).
    Custom(String),
}

impl GolfError {
    /// The human-readable message for this error, built from the
    /// offending value and the relevant bounds it carries.
    pub fn message(&self) -> (r: String)
        ensures
            match self {
                GolfError::InvalidScore { score, hole, par } => r@ == "Invalid score "@
                    + signed_dec_rep(*score as int) + " for hole "@ + dec_rep(*hole as int)
                    + " (par "@ + dec_rep(*par as int)
                    + "). Score must be between 1 and 15."@,
                GolfError::InvalidHole { hole, max_holes } => r@ == "Hole number "@ + dec_rep(
                    *hole as int,
                ) + " is invalid. Must be between 1 and "@ + dec_rep(*max_holes as int) + "."@,
                GolfError::PlayerNotFound(name) => r@ == "Player '"@ + name@ + "' not found"@,
                GolfError::RoundNotFound(id) => r@ == "Round with ID "@ + dec_rep(*id as int)
                    + " not found"@,
                GolfError::InvalidPar(par) => r@ == "Par "@ + dec_rep(*par as int)
                    + " is invalid. Must be 3, 4, or 5."@,
                GolfError::ScorecardComplete(id) => r@ == "Scorecard for round "@ + dec_rep(
                    *id as int,
                ) + " is already complete"@,
                GolfError::SerializationError(_) => r@
                    == "Failed to serialize/deserialize data"@,
                GolfError::IoError(_) => r@ == "File operation failed"@,
                GolfError::Custom(m) => r@ == m@,
            },
    {
        match self {
            GolfError::InvalidScore { score, hole, par } => {
                let mut r = String::from_str("Invalid score ");
                r.append(i64_to_decimal(*score as i64).as_str());
                r.append(" for hole ");
                r.append(u128_to_decimal(*hole as u128).as_str());
                r.append(" (par ");
                r.append(u128_to_decimal(*par as u128).as_str());
                r.append("). Score must be between 1 and 15.");
                r
            },
            GolfError::InvalidHole { hole, max_holes } => {
                let mut r = String::from_str("Hole number ");
                r.append(u128_to_decimal(*hole as u128).as_str());
                r.append(" is invalid. Must be between 1 and ");
                r.append(u128_to_decimal(*max_holes as u128).as_str());
                r.append(".");
                r
            },
            GolfError::PlayerNotFound(name) => {
                let mut r = String::from_str("Player '");
                r.append(name.as_str());
                r.append("' not found");
                r
            },
            GolfError::RoundNotFound(id) => {
                let mut r = String::from_str("Round with ID ");
                r.append(u128_to_decimal(*id).as_str());
                r.append(" not found");
                r
            },
            GolfError::InvalidPar(par) => {
                let mut r = String::from_str("Par ");
                r.append(u128_to_decimal(*par as u128).as_str());
                r.append(" is invalid. Must be 3, 4, or 5.");
                r
            },
            GolfError::ScorecardComplete(id) => {
                let mut r = String::from_str("Scorecard for round ");
                r.append(u128_to_decimal(*id).as_str());
                r.append(" is already complete");
                r
            },
            GolfError::SerializationError(_) => String::from_str(
                "Failed to serialize/deserialize data",
            ),
            GolfError::IoError(_) => String::from_str("File operation failed"),
            GolfError::Custom(m) => m.clone(),
        }
    }

    /// Builds the miscellaneous variant from a message.
    pub fn custom(msg: String) -> (r: GolfError)
        ensures
            r == GolfError::Custom(msg),
    {
        GolfError::Custom(msg)
    }

    /// True exactly for the lookup-miss variants.
    pub fn is_not_found(&self) -> (r: bool)
        ensures
            r == (self is PlayerNotFound || self is RoundNotFound),
    {
        match self {
            GolfError::PlayerNotFound(_) => true,
            GolfError::RoundNotFound(_) => true,
            _ => false,
        }
    }

    /// True exactly for the validation variants.
    pub fn is_validation_error(&self) -> (r: bool)
        ensures
            r == (self is InvalidScore || self is InvalidHole || self is InvalidPar),
    {
        match self {
            GolfError::InvalidScore { .. } => true,
            GolfError::InvalidHole { .. } => true,
            GolfError::InvalidPar(_) => true,
            _ => false,
        }
    }
}

} // verus!
