use honor::lcu_api::{basic_authorization, classify_topic, event_payload,
    lcu_connect_info_from_lockfile, request_url, route_wamp_items, route_wamp_message, socket_address,
    wamp_message, wamp_url, EventTopic, LockfileError, MessageTypes, WampRoute, FRIENDS_EVENT,
    LOBBY_EVENT};
use honor::util::{lcu_info_from_captures, lcu_info_from_process_list, ProcessInfoError};

#[test]
fn message_type_codes() {
    assert_eq!(MessageTypes::Subscribe.code(), 5);
}

#[test]
fn wamp_message_writes_subscription_frame() {
    assert_eq!(
        wamp_message(MessageTypes::Subscribe, "OnJsonApiEvent_lol-lobby_v2_lobby"),
        "[5, \"OnJsonApiEvent_lol-lobby_v2_lobby\"]"
    );
}

#[test]
fn urls_of_the_client() {
    assert_eq!(
        request_url(2999, "lol-summoner/v1/current-summoner"),
        "https://127.0.0.1:2999/lol-summoner/v1/current-summoner"
    );
    assert_eq!(wamp_url(50123), "wss://127.0.0.1:50123");
    assert_eq!(socket_address(7), "127.0.0.1:7");
}

#[test]
fn basic_authorization_encodes_riot_user() {
    assert_eq!(basic_authorization("pass"), "Basic cmlvdDpwYXNz");
    assert_eq!(basic_authorization("secret"), "Basic cmlvdDpzZWNyZXQ=");
    assert_eq!(basic_authorization(""), "Basic cmlvdDo=");
}

#[test]
fn lockfile_gives_port_and_token() {
    let r = lcu_connect_info_from_lockfile("LeagueClient:1234:50000:secret:https");
    match r {
        Ok((port, token)) => {
            assert_eq!(port, 50000);
            assert_eq!(token, "Basic cmlvdDpzZWNyZXQ=");
        },
        Err(e) => panic!("unexpected error {:?}", e),
    }
}

#[test]
fn lockfile_round_trip_for_written_fields() {
    for (port, password) in [(1u16, "a"), (65535, "p_w-d"), (443, "")] {
        let contents = format!("LeagueClient:99:{}:{}:https", port, password);
        match lcu_connect_info_from_lockfile(&contents) {
            Ok((p, token)) => {
                assert_eq!(p, port);
                assert_eq!(token, basic_authorization(password));
            },
            Err(e) => panic!("unexpected error {:?}", e),
        }
    }
}

#[test]
fn lockfile_errors() {
    assert!(matches!(lcu_connect_info_from_lockfile("LeagueClient:1234"), Err(LockfileError::PortMissing)));
    assert!(matches!(lcu_connect_info_from_lockfile(""), Err(LockfileError::PortMissing)));
    assert!(matches!(lcu_connect_info_from_lockfile("a:b:port:pw"), Err(LockfileError::PortInvalid)));
    assert!(matches!(lcu_connect_info_from_lockfile("a:b:70000:pw"), Err(LockfileError::PortInvalid)));
    assert!(matches!(lcu_connect_info_from_lockfile("a:b:xx"), Err(LockfileError::PortInvalid)));
    assert!(matches!(lcu_connect_info_from_lockfile("a:b:123"), Err(LockfileError::TokenMissing)));
}

#[test]
fn topics_are_classified() {
    assert_eq!(classify_topic(FRIENDS_EVENT), EventTopic::Friends);
    assert_eq!(classify_topic(LOBBY_EVENT), EventTopic::Lobby);
    assert_eq!(classify_topic("OnJsonApiEvent"), EventTopic::Other);
}

#[test]
fn event_payload_defaults_to_null() {
    assert_eq!(event_payload(None), "null");
    assert_eq!(event_payload(Some("{}".to_string())), "{}");
}

#[test]
fn friend_event_is_routed_with_its_data() {
    let message = br#"[8, "OnJsonApiEvent_lol-chat_v1_friends", {"data": {"name": "x", "summonerId": 3}, "eventType": "Update"}]"#;
    match route_wamp_message(message) {
        WampRoute::FriendUpdate(data) => {
            let value: serde_json::Value = serde_json::from_str(&data).unwrap();
            assert_eq!(value["name"], "x");
            assert_eq!(value["summonerId"], 3);
        },
        _ => panic!("not routed as a friend update"),
    }
}

#[test]
fn lobby_event_without_data_carries_null() {
    let message = br#"[8, "OnJsonApiEvent_lol-lobby_v2_lobby", {"eventType": "Delete"}]"#;
    match route_wamp_message(message) {
        WampRoute::LobbyUpdate(data) => assert_eq!(data, "null"),
        _ => panic!("not routed as a lobby update"),
    }
}

#[test]
fn other_messages_are_skipped_or_unmatched() {
    assert!(matches!(route_wamp_message(b""), WampRoute::Skip));
    assert!(matches!(route_wamp_message(b"not json"), WampRoute::Skip));
    assert!(matches!(route_wamp_message(b"{\"a\": 1}"), WampRoute::Skip));
    assert!(matches!(route_wamp_message(b"[8, \"OnJsonApiEvent_lol-chat_v1_friends\"]"), WampRoute::Skip));
    assert!(matches!(route_wamp_message(b"[8, 5, {}]"), WampRoute::Skip));
    match route_wamp_message(b"[8, \"OnJsonApiEvent_other\", {\"data\": 1}]") {
        WampRoute::Unmatched(event) => assert_eq!(event, "OnJsonApiEvent_other"),
        _ => panic!("not unmatched"),
    }
}

#[test]
fn process_list_gives_port_and_token() {
    let output = b"CommandLine\r\n\"LeagueClientUx.exe\" \"--remoting-auth-token=abc-_1\" \"--respawn-command=LeagueClient.exe\" \"--app-port=5555\" \"--install-directory=C:\\x\"\r\n".to_vec();
    match lcu_info_from_process_list(output) {
        Ok((port, token)) => {
            assert_eq!(port, 5555);
            assert_eq!(token, "Basic cmlvdDphYmMtXzE=");
        },
        Err(e) => panic!("unexpected error {:?}", e),
    }
}

#[test]
fn process_list_errors() {
    assert_eq!(lcu_info_from_process_list(vec![0xff, 0xfe]).err(), Some(ProcessInfoError::InvalidUtf8));
    assert_eq!(
        lcu_info_from_process_list(b"No Instance(s) Available.".to_vec()).err(),
        Some(ProcessInfoError::ClientNotFound)
    );
    assert_eq!(
        lcu_info_from_process_list(b"--remoting-auth-token=abc --app-port=".to_vec()).err(),
        Some(ProcessInfoError::InvalidPort)
    );
    assert_eq!(
        lcu_info_from_process_list(b"--remoting-auth-token=abc --app-port=99999".to_vec()).err(),
        Some(ProcessInfoError::InvalidPort)
    );
}

#[test]
fn captures_decide_the_result() {
    assert_eq!(lcu_info_from_captures(None).err(), Some(ProcessInfoError::InvalidPattern));
    assert_eq!(lcu_info_from_captures(Some(None)).err(), Some(ProcessInfoError::ClientNotFound));
    assert_eq!(
        lcu_info_from_captures(Some(Some(vec![Some("m".to_string()), None, Some("1".to_string())]))).err(),
        Some(ProcessInfoError::ClientNotFound)
    );
    assert_eq!(
        lcu_info_from_captures(Some(Some(vec![Some("m".to_string()), Some("t".to_string())]))).err(),
        Some(ProcessInfoError::ClientNotFound)
    );
    match lcu_info_from_captures(Some(Some(vec![
        Some("m".to_string()),
        Some("pass".to_string()),
        Some("+80".to_string()),
    ]))) {
        Ok((port, token)) => {
            assert_eq!(port, 80);
            assert_eq!(token, "Basic cmlvdDpwYXNz");
        },
        Err(e) => panic!("unexpected error {:?}", e),
    }
}

#[test]
fn items_are_routed_by_topic() {
    let items = |v: &[&str]| -> Vec<String> { v.iter().map(|s| s.to_string()).collect() };
    assert!(matches!(route_wamp_items(items(&["8", "\"OnJsonApiEvent_lol-lobby_v2_lobby\""])), WampRoute::Skip));
    assert!(matches!(route_wamp_items(items(&["8", "5", "{}"])), WampRoute::Skip));
    match route_wamp_items(items(&["8", "\"OnJsonApiEvent_lol-lobby_v2_lobby\"", "{\"data\":{\"members\":[]}}"])) {
        WampRoute::LobbyUpdate(data) => assert_eq!(data, "{\"members\":[]}"),
        _ => panic!("not routed as a lobby update"),
    }
    match route_wamp_items(items(&["8", "\"OnJsonApiEvent_lol-chat_v1_friends\"", "not json"])) {
        WampRoute::FriendUpdate(data) => assert_eq!(data, "null"),
        _ => panic!("not routed as a friend update"),
    }
    match route_wamp_items(items(&["8", "\"Other\"", "{}", "extra"])) {
        WampRoute::Unmatched(event) => assert_eq!(event, "Other"),
        _ => panic!("not unmatched"),
    }
}
