//! The minimal player record: an identifier, a non-empty trimmed name,
//! and an optional handicap held in tenths of a stroke.

use vstd::prelude::*;
use crate::error::GolfError;
use crate::clock::fresh_id;
use vstd::string::StrSliceExecFns;

verus! {

/// What str::trim leaves of a character sequence: the sequence without
/// its leading and trailing whitespace.
pub uninterp spec fn trimmed_of(s: Seq<char>) -> Seq<char>;

/// A player known to the tracker. The handicap, when present, is stored
/// in tenths of a stroke so that it stays an exact integer.
#[derive(Debug, Clone, PartialEq)]
pub struct Player {
    pub id: u128,
    pub name: String,
    pub handicap_tenths: Option<i32>,
}

/// Relies on str::trim: removes leading and trailing whitespace, and
/// depends on the characters alone.
#[verifier::external_body]
pub(crate) fn trim_str(s: &str) -> (r: String)
    ensures
        r@ == trimmed_of(s@),
{
    s.trim().to_string()
}

impl Player {
    /// Accepts any name whose trimmed form is non-empty, storing that
    /// trimmed form under a fresh random identifier; rejects a name that
    /// trims to nothing.
    pub fn new(name: &str, handicap_tenths: Option<i32>) -> (r: Result<Player, GolfError>)
        ensures
            r is Ok <==> trimmed_of(name@).len() != 0,
            match r {
                Ok(p) => {
                    &&& p.name@ == trimmed_of(name@)
                    &&& p.handicap_tenths == handicap_tenths
                },
                Err(e) => e matches GolfError::Custom(m) && m@ == "Player name cannot be empty"@,
            },
    {
        let name = trim_str(name);
        if name.as_str().unicode_len() == 0 {
            return Err(GolfError::Custom("Player name cannot be empty".to_owned()));
        }
        Ok(Player { id: fresh_id(), name, handicap_tenths })
    }

    /// A structurally fresh copy equal to this player in every field.
    pub fn duplicate(&self) -> (r: Player)
        ensures
            r == *self,
    {
        Player { id: self.id, name: self.name.clone(), handicap_tenths: self.handicap_tenths }
    }
}

} // verus!
