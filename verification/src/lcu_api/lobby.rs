//! The lobby the player is in, and invitations into it.
use vstd::prelude::*;

verus! {

/// A member of the lobby, with the positions they prefer.
#[allow(non_snake_case)]
#[derive(Clone)]
pub struct LobbyMember {
    pub firstPositionPreference: String,
    pub secondPositionPreference: String,
    pub summonerName: String,
}

/// The lobby the player is in; no members when the player is in none.
#[derive(Clone)]
pub struct Lobby {
    pub members: Vec<LobbyMember>,
}

impl Default for Lobby {
    fn default() -> (r: Self)
        ensures
            r.members@.len() == 0,
    {
        Lobby { members: Vec::new() }
    }
}

impl Lobby {
    /// The lobby after a lobby event: the lobby it carries, or no lobby
    /// (no members) when it carries none.
    pub fn from_event(update: Option<Lobby>) -> (r: Lobby)
        ensures
            match update {
                Some(lobby) => r == lobby,
                None => r.members@.len() == 0,
            },
    {
        match update {
            Some(lobby) => lobby,
            None => Lobby::default(),
        }
    }
}

/// An invitation into the lobby, as the lobby service takes it.
#[allow(non_snake_case)]
#[derive(Clone)]
pub struct Invite {
    pub invitationId: String,
    pub state: &'static str,
    pub timestamp: String,
    pub toSummonerId: u64,
    pub toSummonerName: String,
}

impl Invite {
    /// A requested invitation for the summoner `toSummonerId`; every other
    /// field is empty, for the service to fill in.
    #[allow(non_snake_case)]
    pub fn new(toSummonerId: u64) -> (r: Self)
        ensures
            r.state@ == "Requested"@,
            r.toSummonerId == toSummonerId,
            r.invitationId@.len() == 0,
            r.timestamp@.len() == 0,
            r.toSummonerName@.len() == 0,
    {
        Invite {
            invitationId: String::new(),
            state: "Requested",
            timestamp: String::new(),
            toSummonerId,
            toSummonerName: String::new(),
        }
    }
}

} // verus!
