//! Golf round tracking: scorecards validated against course par layouts,
//! multi-round statistics, and a persistence contract, together with a few
//! small companion modules (a pocket calculator, a todo list, a movie
//! watchlist and a baseball batting record).

pub mod error;
pub mod validators;
pub mod digits;
pub mod clock;
pub mod scorecard;
pub mod statistics;
pub mod hole;
pub mod player;
pub mod round;
pub mod repository;
pub mod course;
pub mod calculator;
pub mod todo;
pub mod baseball;
pub mod movie;
pub mod rating;
pub mod queue;
pub mod watchlist;
