//! A friend list that keeps each friend's id and shown name, grouped by
//! availability in the order the chat service lists them.
use vstd::prelude::*;
use vstd::std_specs::convert::FromSpecImpl;
use crate::sorting::views;
use crate::text::text_eq;

verus! {

broadcast use vstd::seq_lib::group_seq_properties;

/// A friend as listed: an id and the name to show.
#[derive(Clone)]
pub struct Friend {
    pub id: String,
    pub name: String,
}

/// The content of a [`Friend`].
pub struct FriendView {
    pub id: Seq<char>,
    pub name: Seq<char>,
}

impl View for Friend {
    type V = FriendView;

    open spec fn view(&self) -> FriendView {
        FriendView { id: self.id@, name: self.name@ }
    }
}

/// A friend as the chat service reports it: the parts of it that the list
/// reads.
#[allow(non_snake_case)]
pub struct RawFriend {
    pub availability: String,
    pub gameName: String,
    pub id: String,
    pub name: String,
}

/// The content of a [`RawFriend`].
pub struct RawFriendView {
    pub availability: Seq<char>,
    pub game_name: Seq<char>,
    pub id: Seq<char>,
    pub name: Seq<char>,
}

impl View for RawFriend {
    type V = RawFriendView;

    open spec fn view(&self) -> RawFriendView {
        RawFriendView {
            availability: self.availability@,
            game_name: self.gameName@,
            id: self.id@,
            name: self.name@,
        }
    }
}

/// The listed friend for a reported one: its id, and its name, or its game
/// name when it has no name.
pub open spec fn listed_friend(f: RawFriendView) -> FriendView {
    FriendView { id: f.id, name: if f.name.len() == 0 { f.game_name } else { f.name } }
}

impl From<RawFriend> for Friend {
    /// The listed friend for a reported one: its id, and its name, or its game
    /// name when it has no name.
    fn from(raw: RawFriend) -> (r: Self) {
        Friend { id: raw.id, name: if raw.name.as_str().is_empty() { raw.gameName } else { raw.name } }
    }
}

impl FromSpecImpl<RawFriend> for Friend {
    open spec fn obeys_from_spec() -> bool {
        true
    }

    open spec fn from_spec(raw: RawFriend) -> Friend {
        Friend { id: raw.id, name: if raw.name@.len() == 0 { raw.gameName } else { raw.name } }
    }
}

/// The groups of the friend list.
#[derive(Clone, Copy, Debug, PartialEq, Eq, Structural)]
pub enum Availability {
    Online,
    Busy,
    Away,
    Other,
    Offline,
}

/// The group of a friend with the given availability: `chat` is online,
/// `dnd` busy, `away` away, `offline` offline, and anything else other.
pub open spec fn availability_group(availability: Seq<char>) -> Availability {
    if availability == "chat"@ {
        Availability::Online
    } else if availability == "dnd"@ {
        Availability::Busy
    } else if availability == "away"@ {
        Availability::Away
    } else if availability == "offline"@ {
        Availability::Offline
    } else {
        Availability::Other
    }
}

/// The test "belongs to group `g`".
pub open spec fn in_group(g: Availability) -> spec_fn(RawFriendView) -> bool {
    |f: RawFriendView| availability_group(f.availability) == g
}

/// The listed friends of group `g` for the reported friends `s`, in their
/// order in `s`.
pub open spec fn listed_group(s: Seq<RawFriendView>, g: Availability) -> Seq<FriendView> {
    s.filter(in_group(g)).map_values(|f: RawFriendView| listed_friend(f))
}

/// Every reported friend is listed in exactly one group: the groups' sizes
/// add up to the number of reported friends.
pub proof fn lemma_groups_partition(s: Seq<RawFriendView>)
    ensures
        listed_group(s, Availability::Online).len() + listed_group(s, Availability::Busy).len()
            + listed_group(s, Availability::Away).len() + listed_group(s, Availability::Other).len()
            + listed_group(s, Availability::Offline).len() == s.len(),
    decreases s.len(),
{
    if s.len() == 0 {
        reveal(Seq::filter);
    } else {
        let t = s.drop_last();
        let x = s.last();
        lemma_groups_partition(t);
        assert(t.push(x) =~= s);
        t.lemma_filter_push(x, in_group(Availability::Online));
        t.lemma_filter_push(x, in_group(Availability::Busy));
        t.lemma_filter_push(x, in_group(Availability::Away));
        t.lemma_filter_push(x, in_group(Availability::Other));
        t.lemma_filter_push(x, in_group(Availability::Offline));
    }
}

/// The test "reports the availability `a`".
pub open spec fn reports(a: Seq<char>) -> spec_fn(RawFriendView) -> bool {
    |f: RawFriendView| f.availability == a
}

/// The test "reports none of `chat`, `dnd`, `away` and `offline`".
pub open spec fn reports_other() -> spec_fn(RawFriendView) -> bool {
    |f: RawFriendView|
        f.availability != "chat"@ && f.availability != "dnd"@ && f.availability != "away"@
            && f.availability != "offline"@
}

/// The group of an availability is decided by the reported text alone:
/// online exactly for `chat`, busy exactly for `dnd`, away exactly for
/// `away`, offline exactly for `offline`, and other for anything else.
pub proof fn lemma_availability_group(availability: Seq<char>)
    ensures
        (availability_group(availability) == Availability::Online) == (availability == "chat"@),
        (availability_group(availability) == Availability::Busy) == (availability == "dnd"@),
        (availability_group(availability) == Availability::Away) == (availability == "away"@),
        (availability_group(availability) == Availability::Offline) == (availability
            == "offline"@),
        (availability_group(availability) == Availability::Other) == (availability != "chat"@
            && availability != "dnd"@ && availability != "away"@ && availability != "offline"@),
{
    reveal_strlit("chat");
    reveal_strlit("dnd");
    reveal_strlit("away");
    reveal_strlit("offline");
    assert("chat"@[0] != "away"@[0]);
    assert("offline"@.len() != "chat"@.len() && "offline"@.len() != "dnd"@.len()
        && "offline"@.len() != "away"@.len() && "dnd"@.len() != "chat"@.len());
}

/// The groups hold the reported friends by their reported availability:
/// online those reporting `chat`, busy `dnd`, away `away`, offline
/// `offline`, and other everyone else, each in reported order.
pub proof fn lemma_groups_by_availability(s: Seq<RawFriendView>)
    ensures
        listed_group(s, Availability::Online) == s.filter(reports("chat"@)).map_values(
            |f: RawFriendView| listed_friend(f),
        ),
        listed_group(s, Availability::Busy) == s.filter(reports("dnd"@)).map_values(
            |f: RawFriendView| listed_friend(f),
        ),
        listed_group(s, Availability::Away) == s.filter(reports("away"@)).map_values(
            |f: RawFriendView| listed_friend(f),
        ),
        listed_group(s, Availability::Offline) == s.filter(reports("offline"@)).map_values(
            |f: RawFriendView| listed_friend(f),
        ),
        listed_group(s, Availability::Other) == s.filter(reports_other()).map_values(
            |f: RawFriendView| listed_friend(f),
        ),
{
    assert forall|f: RawFriendView| #[trigger] in_group(Availability::Online)(f) == reports(
        "chat"@,
    )(f) && in_group(Availability::Busy)(f) == reports("dnd"@)(f) && in_group(
        Availability::Away,
    )(f) == reports("away"@)(f) && in_group(Availability::Offline)(f) == reports("offline"@)(f)
        && in_group(Availability::Other)(f) == reports_other()(f) by {
        lemma_availability_group(f.availability);
    }
    assert(in_group(Availability::Online) =~= reports("chat"@));
    assert(in_group(Availability::Busy) =~= reports("dnd"@));
    assert(in_group(Availability::Away) =~= reports("away"@));
    assert(in_group(Availability::Offline) =~= reports("offline"@));
    assert(in_group(Availability::Other) =~= reports_other());
}

/// The friend list, grouped by availability.
#[derive(Clone)]
pub struct Friends {
    pub online: Vec<Friend>,
    pub busy: Vec<Friend>,
    pub away: Vec<Friend>,
    pub other: Vec<Friend>,
    pub offline: Vec<Friend>,
}

impl Friends {
    /// The friends of one group, in list order.
    pub open spec fn group(self, g: Availability) -> Seq<FriendView> {
        match g {
            Availability::Online => views(self.online@),
            Availability::Busy => views(self.busy@),
            Availability::Away => views(self.away@),
            Availability::Other => views(self.other@),
            Availability::Offline => views(self.offline@),
        }
    }
}

impl Default for Friends {
    fn default() -> (r: Self)
        ensures
            forall|g: Availability| #[trigger] r.group(g).len() == 0,
    {
        Friends {
            online: Vec::new(),
            busy: Vec::new(),
            away: Vec::new(),
            other: Vec::new(),
            offline: Vec::new(),
        }
    }
}

impl Friends {
    /// The friend list for the reported friends: each group holds the listed
    /// friends of its availability, in the order they were reported.
    pub fn from(friend_vec: Vec<RawFriend>) -> (r: Friends)
        ensures
            forall|g: Availability| #[trigger] r.group(g) == listed_group(views(friend_vec@), g),
            r.group(Availability::Offline) == views(friend_vec@).filter(reports("offline"@)).map_values(
                |f: RawFriendView| listed_friend(f),
            ),
            r.group(Availability::Other) == views(friend_vec@).filter(reports_other()).map_values(
                |f: RawFriendView| listed_friend(f),
            ),
            r.group(Availability::Online) == views(friend_vec@).filter(reports("chat"@)).map_values(
                |f: RawFriendView| listed_friend(f),
            ),
            r.group(Availability::Busy) == views(friend_vec@).filter(reports("dnd"@)).map_values(
                |f: RawFriendView| listed_friend(f),
            ),
            r.group(Availability::Away) == views(friend_vec@).filter(reports("away"@)).map_values(
                |f: RawFriendView| listed_friend(f),
            ),
    {
        let ghost orig = views(friend_vec@);
        let mut friends = Friends::default();
        let mut input = friend_vec;
        let ghost mut taken: int = 0;
        assert(views(input@) =~= orig.skip(0));
        assert forall|g: Availability| #[trigger] friends.group(g) == listed_group(orig.take(0), g) by {
            assert(orig.take(0).filter(in_group(g)) =~= Seq::<RawFriendView>::empty()) by {
                reveal(Seq::filter);
            }
            assert(listed_group(orig.take(0), g) =~= Seq::<FriendView>::empty());
            assert(friends.group(g) =~= Seq::<FriendView>::empty());
        }
        while input.len() > 0
            invariant
                0 <= taken <= orig.len(),
                views(input@) == orig.skip(taken),
                forall|g: Availability| #[trigger] friends.group(g) == listed_group(orig.take(taken), g),
            decreases input.len(),
        {
            let ghost vin = input@;
            let raw = input.remove(0);
            let ghost rv = raw@;
            assert(views(vin) == orig.skip(taken));
            assert(views(vin).len() == vin.len());
            assert(orig.skip(taken)[0] == orig[taken]);
            assert(views(vin)[0] == vin[0]@);
            assert(views(input@) =~= orig.skip(taken + 1));
            let ghost before = friends;
            let is_chat = text_eq(raw.availability.as_str(), "chat");
            let is_dnd = text_eq(raw.availability.as_str(), "dnd");
            let is_away = text_eq(raw.availability.as_str(), "away");
            let is_offline = text_eq(raw.availability.as_str(), "offline");
            let friend = Friend::from(raw);
            assert(friend@ == listed_friend(rv));
            if is_chat {
                friends.online.push(friend);
            } else if is_dnd {
                friends.busy.push(friend);
            } else if is_away {
                friends.away.push(friend);
            } else if is_offline {
                friends.offline.push(friend);
            } else {
                friends.other.push(friend);
            }
            proof {
                let prev = orig.take(taken);
                assert(prev.push(rv) =~= orig.take(taken + 1));
                assert forall|g: Availability| #[trigger] friends.group(g) == listed_group(
                    prev.push(rv),
                    g,
                ) by {
                    prev.lemma_filter_push(rv, in_group(g));
                    let lf = |x: RawFriendView| listed_friend(x);
                    assert(before.group(g) == listed_group(prev, g));
                    if availability_group(rv.availability) == g {
                        assert(prev.filter(in_group(g)).push(rv).map_values(lf) =~= prev.filter(
                            in_group(g),
                        ).map_values(lf).push(listed_friend(rv)));
                        assert(friends.group(g) =~= before.group(g).push(listed_friend(rv)));
                    } else {
                        assert(friends.group(g) =~= before.group(g));
                    }
                }
                taken = taken + 1;
            }
        }
        assert(orig.take(taken) =~= orig);
        proof {
            lemma_groups_by_availability(orig);
            assert(friends.group(Availability::Offline) == listed_group(orig, Availability::Offline));
            assert(friends.group(Availability::Other) == listed_group(orig, Availability::Other));
            assert(friends.group(Availability::Online) == listed_group(orig, Availability::Online));
            assert(friends.group(Availability::Busy) == listed_group(orig, Availability::Busy));
            assert(friends.group(Availability::Away) == listed_group(orig, Availability::Away));
        }
        friends
    }
}

} // verus!
