//! Shared display state.
use vstd::prelude::*;

verus! {

/// The signed-in summoner as the display state holds it.
pub struct SummonerState {
    pub display_name: String,
}

} // verus!
