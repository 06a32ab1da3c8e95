//! The lobby screen: its state, and how it reacts to window and data events.
use vstd::prelude::*;
use crate::lcu_api::{MessageTypes, wamp_frame, wamp_message, FRIENDS_EVENT, LOBBY_EVENT};
use crate::lcu_api::chat::{Friend, Friends, updated};
use crate::lcu_api::game_queues::Queues;
use crate::lcu_api::lobby::{Invite, Lobby};
use crate::lcu_api::lol_summoner::Summoner;

verus! {

/// The screens of the client.
#[derive(Clone, Copy, PartialEq, Eq, Structural)]
pub enum AppView {
    Lobby,
}

impl Default for AppView {
    fn default() -> (r: Self)
        ensures
            r == AppView::Lobby,
    {
        AppView::Lobby
    }
}

/// What the lobby screen shows.
#[derive(Clone)]
pub struct ScreenState {
    pub view: AppView,
    pub current_summoner: Summoner,
    pub queues: Queues,
    pub friends: Friends,
    pub lobby: Lobby,
    pub chat_contents: String,
}

/// An event that reaches the lobby screen.
pub enum ScreenEvent {
    /// The window opened.
    WindowConnected,
    /// The player asked to invite the summoner with this id.
    PostInvite(u64),
    /// The signed-in summoner arrived.
    SetCurrentSummoner(Summoner),
    /// The queue lists arrived.
    SetQueues(Queues),
    /// The friend list arrived.
    SetFriends(Friends),
    /// The lobby changed.
    SetLobby(Lobby),
    /// A friend changed.
    UpdateFriend(Friend),
    /// Any other event.
    Other,
}

/// Work that the lobby screen asks the client to do.
pub enum ScreenEffect {
    FetchCurrentSummoner,
    FetchQueues,
    FetchFriends,
    FetchLobby,
    /// Send this frame over the WAMP connection.
    SendWamp(String),
    /// Send this invitation to the lobby service.
    PostInvitation(Invite),
}

/// The work asked for when the window opens: fetch the summoner, queues,
/// friends and lobby, and subscribe to friend and lobby events, in that
/// order.
pub open spec fn window_connected_effects(effects: Seq<ScreenEffect>) -> bool {
    &&& effects.len() == 6
    &&& effects[0] is FetchCurrentSummoner
    &&& effects[1] is FetchQueues
    &&& effects[2] is FetchFriends
    &&& effects[3] is FetchLobby
    &&& effects[4] matches ScreenEffect::SendWamp(m) && m@ == wamp_frame(
        MessageTypes::Subscribe,
        FRIENDS_EVENT@,
    )
    &&& effects[5] matches ScreenEffect::SendWamp(m) && m@ == wamp_frame(
        MessageTypes::Subscribe,
        LOBBY_EVENT@,
    )
}

impl ScreenState {
    /// The screen before any data arrived: the lobby screen, with no
    /// summoner, queues, friends, lobby or chat text.
    pub fn new() -> (r: Self)
        ensures
            r.view == AppView::Lobby,
            r.current_summoner.display_name@.len() == 0,
            r.queues.ranked@.len() == 0,
            r.queues.casual@.len() == 0,
            r.queues.versus_ai@.len() == 0,
            r.friends@.online.len() == 0,
            r.friends@.busy.len() == 0,
            r.friends@.away.len() == 0,
            r.friends@.other.len() == 0,
            r.friends@.offline.len() == 0,
            r.lobby.members@.len() == 0,
            r.chat_contents@.len() == 0,
    {
        ScreenState {
            view: AppView::default(),
            current_summoner: Summoner::default(),
            queues: Queues::default(),
            friends: Friends::default(),
            lobby: Lobby::default(),
            chat_contents: String::new(),
        }
    }

    /// Reacts to an event: data that arrives replaces what the screen shows,
    /// a friend change updates the friend list, an invitation request becomes
    /// an invitation to send, and the window opening asks for all data and
    /// subscribes to changes.
    pub fn handle_event(&mut self, event: ScreenEvent) -> (effects: Vec<ScreenEffect>)
        ensures
            match event {
                ScreenEvent::WindowConnected => {
                    &&& *final(self) == *old(self)
                    &&& window_connected_effects(effects@)
                },
                ScreenEvent::PostInvite(id) => {
                    &&& *final(self) == *old(self)
                    &&& effects@.len() == 1
                    &&& effects@[0] matches ScreenEffect::PostInvitation(invite) && {
                        &&& invite.toSummonerId == id
                        &&& invite.state@ == "Requested"@
                        &&& invite.invitationId@.len() == 0
                        &&& invite.timestamp@.len() == 0
                        &&& invite.toSummonerName@.len() == 0
                    }
                },
                ScreenEvent::SetCurrentSummoner(summoner) => {
                    &&& *final(self) == (ScreenState { current_summoner: summoner, ..*old(self) })
                    &&& effects@.len() == 0
                },
                ScreenEvent::SetQueues(queues) => {
                    &&& *final(self) == (ScreenState { queues: queues, ..*old(self) })
                    &&& effects@.len() == 0
                },
                ScreenEvent::SetFriends(friends) => {
                    &&& *final(self) == (ScreenState { friends: friends, ..*old(self) })
                    &&& effects@.len() == 0
                },
                ScreenEvent::SetLobby(lobby) => {
                    &&& *final(self) == (ScreenState { lobby: lobby, ..*old(self) })
                    &&& effects@.len() == 0
                },
                ScreenEvent::UpdateFriend(friend) => {
                    &&& final(self).friends@ == updated(old(self).friends@, friend@)
                    &&& final(self).view == old(self).view
                    &&& final(self).current_summoner == old(self).current_summoner
                    &&& final(self).queues == old(self).queues
                    &&& final(self).lobby == old(self).lobby
                    &&& final(self).chat_contents == old(self).chat_contents
                    &&& effects@.len() == 0
                },
                ScreenEvent::Other => {
                    &&& *final(self) == *old(self)
                    &&& effects@.len() == 0
                },
            },
    {
        let mut effects: Vec<ScreenEffect> = Vec::new();
        match event {
            ScreenEvent::WindowConnected => {
                effects.push(ScreenEffect::FetchCurrentSummoner);
                effects.push(ScreenEffect::FetchQueues);
                effects.push(ScreenEffect::FetchFriends);
                effects.push(ScreenEffect::FetchLobby);
                effects.push(
                    ScreenEffect::SendWamp(wamp_message(MessageTypes::Subscribe, FRIENDS_EVENT)),
                );
                effects.push(
                    ScreenEffect::SendWamp(wamp_message(MessageTypes::Subscribe, LOBBY_EVENT)),
                );
            },
            ScreenEvent::PostInvite(id) => {
                effects.push(ScreenEffect::PostInvitation(Invite::new(id)));
            },
            ScreenEvent::SetCurrentSummoner(summoner) => {
                self.current_summoner = summoner;
            },
            ScreenEvent::SetQueues(queues) => {
                self.queues = queues;
            },
            ScreenEvent::SetFriends(friends) => {
                self.friends = friends;
            },
            ScreenEvent::SetLobby(lobby) => {
                self.lobby = lobby;
            },
            ScreenEvent::UpdateFriend(friend) => {
                self.friends.update(friend);
            },
            ScreenEvent::Other => {},
        }
        effects
    }
}

} // verus!
