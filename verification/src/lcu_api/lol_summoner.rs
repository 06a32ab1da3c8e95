//! The signed-in summoner.
use vstd::prelude::*;
use vstd::std_specs::convert::FromSpecImpl;

verus! {

/// The signed-in summoner, as the client shows it.
#[derive(Clone)]
pub struct Summoner {
    pub display_name: String,
}

impl Default for Summoner {
    fn default() -> (r: Self)
        ensures
            r.display_name@.len() == 0,
    {
        Summoner { display_name: String::new() }
    }
}

/// Reroll points of a summoner, as the summoner service reports them.
#[allow(non_snake_case)]
pub struct RerollPoints {
    pub currentPoints: u32,
    pub maxRolls: u32,
    pub numberOfRolls: u32,
    pub pointsCostToRoll: u32,
    pub pointsToReroll: u32,
}

/// The signed-in summoner, as the summoner service reports it.
#[allow(non_snake_case)]
pub struct RawSummoner {
    pub accountId: u32,
    pub displayName: String,
    pub internalName: String,
    pub nameChangeFlag: bool,
    pub percentCompleteForNextLevel: u8,
    pub profileIconId: u32,
    pub puuid: String,
    pub rerollPoints: RerollPoints,
    pub summonerId: u32,
    pub summonerLevel: u32,
    pub unnamed: bool,
    pub xpSinceLastLevel: u32,
    pub xpUntilNextLevel: u32,
}

impl From<RawSummoner> for Summoner {
    /// The shown summoner: the reported display name.
    fn from(summoner: RawSummoner) -> (r: Self) {
        Summoner { display_name: summoner.displayName }
    }
}

impl FromSpecImpl<RawSummoner> for Summoner {
    open spec fn obeys_from_spec() -> bool {
        true
    }

    open spec fn from_spec(summoner: RawSummoner) -> Summoner {
        Summoner { display_name: summoner.displayName }
    }
}

} // verus!
