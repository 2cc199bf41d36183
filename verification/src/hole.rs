//! A single hole of a course: its number and its par, both validated at
//! construction.

use vstd::prelude::*;
use crate::error::GolfError;
use crate::validators::{hole_number_ok, par_ok, validate_hole_number, validate_par};

verus! {

/// A validated (hole number, par) pair.
#[derive(Debug, Clone, Copy, PartialEq, Eq)]
pub struct Hole {
    pub number: u8,
    pub par: u8,
}

impl Hole {
    /// Accepts exactly the hole numbers in 1..=max_holes paired with a
    /// par of 3, 4 or 5, reporting the first violated bound.
    pub fn new(number: u8, par: u8, max_holes: u8) -> (r: Result<Hole, GolfError>)
        ensures
            r is Ok <==> hole_number_ok(number, max_holes) && par_ok(par),
            match r {
                Ok(h) => h == (Hole { number, par }),
                Err(e) => if !hole_number_ok(number, max_holes) {
                    e == (GolfError::InvalidHole { hole: number, max_holes })
                } else {
                    e == GolfError::InvalidPar(par)
                },
            },
    {
        match validate_hole_number(number, max_holes) {
            Ok(()) => (),
            Err(e) => {
                return Err(e);
            },
        }
        match validate_par(par) {
            Ok(()) => (),
            Err(e) => {
                return Err(e);
            },
        }
        Ok(Hole { number, par })
    }
}

} // verus!
