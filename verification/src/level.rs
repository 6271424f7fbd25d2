//! Round outcome records. A round ends in defeat the moment any
//! player combatant is down, and in victory once every enemy is down;
//! the presence of a summary freezes all further turn progression.

use vstd::prelude::*;

verus! {

/// How a round ended.
#[derive(PartialEq, Eq, Structural, Clone, Copy, Debug)]
pub enum RoundResult {
    Victory,
    Defeat,
    Neutral,
}

/// The terminal record of a round, created once play crosses a
/// win/loss boundary and never mutated afterwards.
#[derive(PartialEq, Eq, Structural, Clone, Copy, Debug)]
pub struct RoundSummary(pub RoundResult);

} // verus!
