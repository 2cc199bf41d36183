//! Pure range checks for hole numbers, par values and stroke counts.
//! These are the leaves of the scorecard validation rules.

use vstd::prelude::*;
use crate::error::GolfError;

verus! {

/// A hole number is acceptable when it lies in 1..=max_holes.
pub open spec fn hole_number_ok(hole: u8, max_holes: u8) -> bool {
    1 <= hole <= max_holes
}

/// A par is acceptable when it is 3, 4 or 5.
pub open spec fn par_ok(par: u8) -> bool {
    par == 3 || par == 4 || par == 5
}

/// A stroke count is acceptable when it lies in 1..=15 (the bound does not
/// depend on the par; hole and par are carried for error context only).
pub open spec fn score_ok(strokes: u8) -> bool {
    1 <= strokes <= 15
}

/// Rejects hole numbers outside 1..=max_holes.
pub fn validate_hole_number(hole: u8, max_holes: u8) -> (r: Result<(), GolfError>)
    ensures
        r is Ok <==> hole_number_ok(hole, max_holes),
        r is Err ==> r == Result::<(), GolfError>::Err(GolfError::InvalidHole { hole, max_holes }),
{
    if hole == 0 || hole > max_holes {
        return Err(GolfError::InvalidHole { hole, max_holes });
    }
    Ok(())
}

/// Rejects par values other than 3, 4 and 5.
pub fn validate_par(par: u8) -> (r: Result<(), GolfError>)
    ensures
        r is Ok <==> par_ok(par),
        r is Err ==> r == Result::<(), GolfError>::Err(GolfError::InvalidPar(par)),
{
    if !(par == 3 || par == 4 || par == 5) {
        return Err(GolfError::InvalidPar(par));
    }
    Ok(())
}

/// Rejects stroke counts outside 1..=15.
pub fn validate_score(strokes: u8, hole: u8, par: u8) -> (r: Result<(), GolfError>)
    ensures
        r is Ok <==> score_ok(strokes),
        r is Err ==> r == Result::<(), GolfError>::Err(
            GolfError::InvalidScore { score: strokes as i32, hole, par },
        ),
{
    if strokes < 1 || strokes > 15 {
        return Err(GolfError::InvalidScore { score: strokes as i32, hole, par });
    }
    Ok(())
}

} // verus!
