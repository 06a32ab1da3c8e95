//! The main screen, fed by the summoner, queue and friend lists that keep
//! only what they show.
use vstd::prelude::*;
use crate::lcu_api::lol_chat::Friends;
use crate::lcu_api::lol_game_queues::Queues;
use crate::lcu_api::lol_summoner::Summoner;

verus! {

/// The screens of the client.
#[derive(Clone, Copy, PartialEq, Eq, Structural)]
pub enum AppView {
    Main,
}

impl Default for AppView {
    fn default() -> (r: Self)
        ensures
            r == AppView::Main,
    {
        AppView::Main
    }
}

/// What the main screen shows.
#[derive(Clone)]
pub struct MainScreenState {
    pub view: AppView,
    pub current_summoner: Summoner,
    pub queues: Queues,
    pub friends: Friends,
    pub chat_contents: String,
}

/// An event that reaches the main screen.
pub enum MainScreenEvent {
    /// The window opened.
    WindowConnected,
    /// The signed-in summoner arrived.
    SetCurrentSummoner(Summoner),
    /// The queue lists arrived.
    SetQueues(Queues),
    /// The friend list arrived.
    SetFriends(Friends),
    /// Any other event.
    Other,
}

/// Work that the main screen asks the client to do.
pub enum MainScreenEffect {
    FetchCurrentSummoner,
    FetchQueues,
    FetchFriends,
}

impl MainScreenState {
    /// The screen before any data arrived: the main screen, with no summoner,
    /// queues, friends or chat text.
    pub fn new() -> (r: Self)
        ensures
            r.view == AppView::Main,
            r.current_summoner.display_name@.len() == 0,
            r.queues.ranked@.len() == 0,
            r.queues.casual@.len() == 0,
            r.queues.versus_ai@.len() == 0,
            r.friends.online@.len() == 0,
            r.friends.busy@.len() == 0,
            r.friends.away@.len() == 0,
            r.friends.other@.len() == 0,
            r.friends.offline@.len() == 0,
            r.chat_contents@.len() == 0,
    {
        let friends = Friends::default();
        assert(friends.group(crate::lcu_api::lol_chat::Availability::Online).len() == 0);
        assert(friends.group(crate::lcu_api::lol_chat::Availability::Busy).len() == 0);
        assert(friends.group(crate::lcu_api::lol_chat::Availability::Away).len() == 0);
        assert(friends.group(crate::lcu_api::lol_chat::Availability::Other).len() == 0);
        assert(friends.group(crate::lcu_api::lol_chat::Availability::Offline).len() == 0);
        MainScreenState {
            view: AppView::default(),
            current_summoner: Summoner::default(),
            queues: Queues::default(),
            friends,
            chat_contents: String::new(),
        }
    }

    /// Reacts to an event: data that arrives replaces what the screen shows,
    /// and the window opening asks for the summoner, the queues and the
    /// friends, in that order.
    pub fn handle_event(&mut self, event: MainScreenEvent) -> (effects: Vec<MainScreenEffect>)
        ensures
            match event {
                MainScreenEvent::WindowConnected => {
                    &&& *final(self) == *old(self)
                    &&& effects@.len() == 3
                    &&& effects@[0] is FetchCurrentSummoner
                    &&& effects@[1] is FetchQueues
                    &&& effects@[2] is FetchFriends
                },
                MainScreenEvent::SetCurrentSummoner(summoner) => {
                    &&& *final(self) == (MainScreenState { current_summoner: summoner, ..*old(self) })
                    &&& effects@.len() == 0
                },
                MainScreenEvent::SetQueues(queues) => {
                    &&& *final(self) == (MainScreenState { queues: queues, ..*old(self) })
                    &&& effects@.len() == 0
                },
                MainScreenEvent::SetFriends(friends) => {
                    &&& *final(self) == (MainScreenState { friends: friends, ..*old(self) })
                    &&& effects@.len() == 0
                },
                MainScreenEvent::Other => {
                    &&& *final(self) == *old(self)
                    &&& effects@.len() == 0
                },
            },
    {
        let mut effects: Vec<MainScreenEffect> = Vec::new();
        match event {
            MainScreenEvent::WindowConnected => {
                effects.push(MainScreenEffect::FetchCurrentSummoner);
                effects.push(MainScreenEffect::FetchQueues);
                effects.push(MainScreenEffect::FetchFriends);
            },
            MainScreenEvent::SetCurrentSummoner(summoner) => {
                self.current_summoner = summoner;
            },
            MainScreenEvent::SetQueues(queues) => {
                self.queues = queues;
            },
            MainScreenEvent::SetFriends(friends) => {
                self.friends = friends;
            },
            MainScreenEvent::Other => {},
        }
        effects
    }
}

} // verus!
