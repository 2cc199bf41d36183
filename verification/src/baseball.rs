//! A baseball batting record and the error type of its tracker.

use vstd::prelude::*;
use vstd::string::StringExecFns;

verus! {

/// Errors reported by the batting-stats tracker, each carrying a
/// message fragment.
#[derive(Debug)]
pub enum StatError {
    InvalidStats(String),
    PlayerNotFound(String),
    IoError(String),
}

impl StatError {
    /// The full message for this error: its category name, a colon, and
    /// the carried fragment.
    pub fn message(&self) -> (r: String)
        ensures
            match self {
                StatError::InvalidStats(m) => r@ == "Invalid Stats: "@ + m@,
                StatError::PlayerNotFound(m) => r@ == "Player Not Found: "@ + m@,
                StatError::IoError(m) => r@ == "I/O Error: "@ + m@,
            },
    {
        match self {
            StatError::InvalidStats(m) => String::from_str("Invalid Stats: ").concat(m.as_str()),
            StatError::PlayerNotFound(m) => String::from_str("Player Not Found: ").concat(
                m.as_str(),
            ),
            StatError::IoError(m) => String::from_str("I/O Error: ").concat(m.as_str()),
        }
    }
}

#[verifier::external_type_specification]
#[verifier::external_body]
pub struct ExIoError(std::io::Error);

/// Relies on std::io::Error's Display implementation (through
/// ToString) for the human-readable text of an I/O failure. Nothing is
/// promised of the text.
#[verifier::external_body]
fn io_error_text(e: &std::io::Error) -> String {
    e.to_string()
}

impl From<std::io::Error> for StatError {
    /// Wraps an I/O failure's message text.
    fn from(error: std::io::Error) -> Self {
        StatError::IoError(io_error_text(&error))
    }
}

impl vstd::std_specs::convert::FromSpecImpl<std::io::Error> for StatError {
    open spec fn obeys_from_spec() -> bool {
        false
    }

    open spec fn from_spec(e: std::io::Error) -> StatError {
        arbitrary()
    }
}

/// One batter's cumulative counting stats.
#[derive(Debug, Clone, PartialEq, Eq)]
pub struct BattingStats {
    pub at_bats: u32,
    pub hits: u32,
    pub singles: u32,
    pub doubles: u32,
    pub triples: u32,
    pub home_runs: u32,
    pub runs_batted_in: u32,
    pub walks: u32,
    pub strikeouts: u32,
}

impl BattingStats {
    /// A record with every counter at zero.
    pub fn new() -> (r: BattingStats)
        ensures
            r == (BattingStats {
                at_bats: 0u32,
                hits: 0u32,
                singles: 0u32,
                doubles: 0u32,
                triples: 0u32,
                home_runs: 0u32,
                runs_batted_in: 0u32,
                walks: 0u32,
                strikeouts: 0u32,
            }),
    {
        BattingStats {
            at_bats: 0,
            hits: 0,
            singles: 0,
            doubles: 0,
            triples: 0,
            home_runs: 0,
            runs_batted_in: 0,
            walks: 0,
            strikeouts: 0,
        }
    }
}

} // verus!
