use honor::lcu_api::chat::Friend;
use honor::lcu_api::game_queues::Queues;
use honor::lcu_api::lobby::{Invite, Lobby, LobbyMember};
use honor::lcu_api::lol_summoner::Summoner;
use honor::view_main::{AppView as MainView, MainScreenEffect, MainScreenEvent, MainScreenState};
use honor::views::{AppView, ScreenEffect, ScreenEvent, ScreenState};

#[test]
fn invite_is_requested_for_summoner() {
    let invite = Invite::new(42);
    assert_eq!(invite.toSummonerId, 42);
    assert_eq!(invite.state, "Requested");
    assert!(invite.invitationId.is_empty() && invite.timestamp.is_empty() && invite.toSummonerName.is_empty());
}

#[test]
fn lobby_event_without_lobby_empties_it() {
    assert!(Lobby::from_event(None).members.is_empty());
    let lobby = Lobby {
        members: vec![LobbyMember {
            firstPositionPreference: "TOP".to_string(),
            secondPositionPreference: "JUNGLE".to_string(),
            summonerName: "a".to_string(),
        }],
    };
    assert_eq!(Lobby::from_event(Some(lobby)).members[0].summonerName, "a");
}

#[test]
fn default_views() {
    assert!(AppView::default() == AppView::Lobby);
    assert!(MainView::default() == MainView::Main);
}

#[test]
fn window_connected_fetches_and_subscribes() {
    let mut state = ScreenState::new();
    let effects = state.handle_event(ScreenEvent::WindowConnected);
    assert_eq!(effects.len(), 6);
    assert!(matches!(effects[0], ScreenEffect::FetchCurrentSummoner));
    assert!(matches!(effects[1], ScreenEffect::FetchQueues));
    assert!(matches!(effects[2], ScreenEffect::FetchFriends));
    assert!(matches!(effects[3], ScreenEffect::FetchLobby));
    match (&effects[4], &effects[5]) {
        (ScreenEffect::SendWamp(a), ScreenEffect::SendWamp(b)) => {
            assert_eq!(a, "[5, \"OnJsonApiEvent_lol-chat_v1_friends\"]");
            assert_eq!(b, "[5, \"OnJsonApiEvent_lol-lobby_v2_lobby\"]");
        },
        _ => panic!("no subscriptions"),
    }
}

#[test]
fn post_invite_asks_for_invitation() {
    let mut state = ScreenState::new();
    let effects = state.handle_event(ScreenEvent::PostInvite(7));
    assert_eq!(effects.len(), 1);
    match &effects[0] {
        ScreenEffect::PostInvitation(invite) => {
            assert_eq!(invite.toSummonerId, 7);
            assert_eq!(invite.state, "Requested");
        },
        _ => panic!("no invitation"),
    }
}

#[test]
fn data_events_replace_shown_data() {
    let mut state = ScreenState::new();
    assert!(state.handle_event(ScreenEvent::SetCurrentSummoner(Summoner { display_name: "S".to_string() })).is_empty());
    assert_eq!(state.current_summoner.display_name, "S");
    let mut queues = Queues::default();
    queues.casual.push(honor::lcu_api::game_queues::Queue {
        category: "PvP".to_string(),
        description: "Blind".to_string(),
        gameMode: "CLASSIC".to_string(),
        isRanked: false,
        queueAvailability: "Available".to_string(),
    });
    assert!(state.handle_event(ScreenEvent::SetQueues(queues)).is_empty());
    assert_eq!(state.queues.casual.len(), 1);
    assert!(state.handle_event(ScreenEvent::SetLobby(Lobby::default())).is_empty());
    assert!(state.handle_event(ScreenEvent::Other).is_empty());
}

#[test]
fn friend_event_updates_friend_list() {
    let mut state = ScreenState::new();
    let f = Friend {
        availability: "chat".to_string(),
        gameName: "G".to_string(),
        name: String::new(),
        summonerId: 1,
    };
    assert!(state.handle_event(ScreenEvent::UpdateFriend(f)).is_empty());
    assert_eq!(state.friends.online.len(), 1);
    assert_eq!(state.friends.online[0].name, "G");
}

#[test]
fn main_screen_fetches_three_lists() {
    let mut state = MainScreenState::new();
    let effects = state.handle_event(MainScreenEvent::WindowConnected);
    assert_eq!(effects.len(), 3);
    assert!(matches!(effects[0], MainScreenEffect::FetchCurrentSummoner));
    assert!(matches!(effects[1], MainScreenEffect::FetchQueues));
    assert!(matches!(effects[2], MainScreenEffect::FetchFriends));
    assert!(state
        .handle_event(MainScreenEvent::SetCurrentSummoner(Summoner { display_name: "M".to_string() }))
        .is_empty());
    assert_eq!(state.current_summoner.display_name, "M");
    assert!(state.handle_event(MainScreenEvent::Other).is_empty());
}
