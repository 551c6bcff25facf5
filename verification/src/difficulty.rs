//! The three difficulty levels that every game understands.

use vstd::prelude::*;

verus! {

/// How hard a round is meant to be.
#[derive(Clone, Copy, Debug, PartialEq, Eq, Structural)]
pub enum Difficulty {
    Easy,
    Medium,
    Hard,
}

} // verus!
