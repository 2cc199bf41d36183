//! Round metadata: an identifier, a creation timestamp, the course name
//! and the hole count.

use vstd::prelude::*;
use crate::clock::{current_timestamp, fresh_id};
use crate::player::{trim_str, trimmed_of};

verus! {

/// One play-through of a course, identified by a unique round id. The
/// date is held as seconds since the Unix epoch.
#[derive(Debug, Clone, PartialEq)]
pub struct Round {
    pub id: u128,
    pub date: i64,
    pub course: String,
    pub max_holes: u8,
}

impl Round {
    /// Builds round metadata under a fresh random identifier, stamped
    /// with the current time and the trimmed course name.
    pub fn new(course: &str, max_holes: u8) -> (r: Round)
        ensures
            r.course@ == trimmed_of(course@),
            r.max_holes == max_holes,
    {
        Round {
            id: fresh_id(),
            date: current_timestamp(),
            course: trim_str(course),
            max_holes,
        }
    }
}

} // verus!
