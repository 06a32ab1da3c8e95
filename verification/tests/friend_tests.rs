use honor::lcu_api::chat::{Friend, Friends};
use honor::lcu_api::lol_chat::{Friend as ListedFriend, Friends as ListedFriends, RawFriend};
use honor::lcu_api::lol_summoner::{RawSummoner, RerollPoints, Summoner};

fn friend(availability: &str, game_name: &str, name: &str, id: u32) -> Friend {
    Friend {
        availability: availability.to_string(),
        gameName: game_name.to_string(),
        name: name.to_string(),
        summonerId: id,
    }
}

fn names(list: &[Friend]) -> Vec<String> {
    list.iter().map(|f| f.name.clone()).collect()
}

#[test]
fn friends_are_grouped_newest_first() {
    let friends = Friends::from(vec![
        friend("chat", "g1", "a", 1),
        friend("dnd", "g2", "b", 2),
        friend("chat", "g3", "c", 3),
        friend("away", "g4", "d", 4),
        friend("offline", "g5", "e", 5),
        friend("mobile", "g6", "f", 6),
    ]);
    assert_eq!(names(&friends.online), vec!["c", "a"]);
    assert_eq!(names(&friends.busy), vec!["b"]);
    assert_eq!(names(&friends.away), vec!["d"]);
    assert_eq!(names(&friends.offline), vec!["e"]);
    assert_eq!(names(&friends.other), vec!["f"]);
    let total = friends.online.len() + friends.busy.len() + friends.away.len() + friends.other.len() + friends.offline.len();
    assert_eq!(total, 6);
}

#[test]
fn friend_without_name_goes_by_game_name() {
    let friends = Friends::from(vec![friend("chat", "GameName", "", 1)]);
    assert_eq!(names(&friends.online), vec!["GameName"]);
}

#[test]
fn update_moves_friend_to_new_group() {
    let mut friends = Friends::from(vec![
        friend("chat", "g1", "a", 1),
        friend("chat", "g2", "b", 2),
        friend("dnd", "g3", "c", 3),
    ]);
    friends.update(friend("away", "g1", "a", 1));
    assert_eq!(names(&friends.online), vec!["b"]);
    assert_eq!(names(&friends.busy), vec!["c"]);
    assert_eq!(names(&friends.away), vec!["a"]);
}

#[test]
fn update_adds_unknown_friend_at_front() {
    let mut friends = Friends::from(vec![friend("chat", "g1", "a", 1)]);
    friends.update(friend("chat", "g9", "", 9));
    assert_eq!(names(&friends.online), vec!["g9", "a"]);
}

#[test]
fn update_twice_is_update_once() {
    let start = vec![friend("chat", "g1", "a", 1), friend("dnd", "g2", "b", 2)];
    let mut once = Friends::from(start);
    once.update(friend("dnd", "g1", "a2", 1));
    let once_names = (names(&once.online), names(&once.busy));
    once.update(friend("dnd", "g1", "a2", 1));
    assert_eq!((names(&once.online), names(&once.busy)), once_names);
    assert_eq!(names(&once.busy), vec!["a2", "b"]);
}

#[test]
fn update_leaves_one_entry_per_summoner() {
    let mut friends = Friends::from(vec![
        friend("chat", "g1", "a", 1),
        friend("chat", "g1", "a-again", 1),
        friend("away", "g1", "a-away", 1),
    ]);
    friends.update(friend("offline", "g1", "a", 1));
    let all: Vec<&Friend> = friends
        .online
        .iter()
        .chain(&friends.busy)
        .chain(&friends.away)
        .chain(&friends.other)
        .chain(&friends.offline)
        .collect();
    assert_eq!(all.iter().filter(|f| f.summonerId == 1).count(), 1);
    assert_eq!(names(&friends.offline), vec!["a"]);
}

fn raw_friend(availability: &str, game_name: &str, id: &str, name: &str) -> RawFriend {
    RawFriend {
        availability: availability.to_string(),
        gameName: game_name.to_string(),
        id: id.to_string(),
        name: name.to_string(),
    }
}

#[test]
fn listed_friend_takes_game_name_when_unnamed() {
    let f = ListedFriend::from(raw_friend("chat", "Game", "id1", ""));
    assert_eq!((f.id.as_str(), f.name.as_str()), ("id1", "Game"));
    let g = ListedFriend::from(raw_friend("chat", "Game", "id2", "Name"));
    assert_eq!((g.id.as_str(), g.name.as_str()), ("id2", "Name"));
}

#[test]
fn listed_friends_keep_reported_order() {
    let friends = ListedFriends::from(vec![
        raw_friend("chat", "g", "1", "a"),
        raw_friend("chat", "g", "2", "b"),
        raw_friend("dnd", "g", "3", "c"),
        raw_friend("away", "g", "4", "d"),
        raw_friend("offline", "g", "5", "e"),
        raw_friend("hidden", "g", "6", ""),
    ]);
    let ids = |l: &Vec<ListedFriend>| -> Vec<String> { l.iter().map(|f| f.id.clone()).collect() };
    assert_eq!(ids(&friends.online), vec!["1", "2"]);
    assert_eq!(ids(&friends.busy), vec!["3"]);
    assert_eq!(ids(&friends.away), vec!["4"]);
    assert_eq!(ids(&friends.offline), vec!["5"]);
    assert_eq!(ids(&friends.other), vec!["6"]);
    assert_eq!(friends.other[0].name, "g");
}

#[test]
fn summoner_keeps_display_name() {
    let raw = RawSummoner {
        accountId: 1,
        displayName: "Sivir".to_string(),
        internalName: "sivir".to_string(),
        nameChangeFlag: false,
        percentCompleteForNextLevel: 10,
        profileIconId: 2,
        puuid: "p".to_string(),
        rerollPoints: RerollPoints {
            currentPoints: 0,
            maxRolls: 2,
            numberOfRolls: 0,
            pointsCostToRoll: 250,
            pointsToReroll: 250,
        },
        summonerId: 3,
        summonerLevel: 30,
        unnamed: false,
        xpSinceLastLevel: 0,
        xpUntilNextLevel: 100,
    };
    assert_eq!(Summoner::from(raw).display_name, "Sivir");
    assert_eq!(Summoner::default().display_name, "");
}

fn total(f: &Friends) -> usize {
    f.online.len() + f.busy.len() + f.away.len() + f.other.len() + f.offline.len()
}

#[test]
fn update_count_is_old_count_less_dropped_plus_one() {
    let mut friends = Friends::from(vec![
        friend("chat", "g1", "a", 1),
        friend("dnd", "g2", "b", 2),
        friend("away", "g3", "c", 3),
    ]);
    friends.update(friend("offline", "g2", "b", 2));
    assert_eq!(total(&friends), 3);
    friends.update(friend("chat", "g4", "d", 4));
    assert_eq!(total(&friends), 4);
    let mut ids: Vec<u32> = friends
        .online
        .iter()
        .chain(&friends.busy)
        .chain(&friends.away)
        .chain(&friends.other)
        .chain(&friends.offline)
        .map(|f| f.summonerId)
        .collect();
    ids.sort();
    ids.dedup();
    assert_eq!(ids.len(), 4);
}
