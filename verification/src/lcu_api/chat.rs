//! The friend list, grouped by availability, newest entry first, and kept up
//! to date by friend events.
use vstd::prelude::*;
use crate::sorting::views;
use crate::text::text_eq;

verus! {

broadcast use vstd::seq_lib::group_seq_properties;

/// A friend as the chat service reports it.
#[allow(non_snake_case)]
#[derive(Clone)]
pub struct Friend {
    pub availability: String,
    pub gameName: String,
    pub name: String,
    pub summonerId: u32,
}

/// The content of a [`Friend`].
pub struct FriendView {
    pub availability: Seq<char>,
    pub game_name: Seq<char>,
    pub name: Seq<char>,
    pub summoner_id: u32,
}

impl View for Friend {
    type V = FriendView;

    open spec fn view(&self) -> FriendView {
        FriendView {
            availability: self.availability@,
            game_name: self.gameName@,
            name: self.name@,
            summoner_id: self.summonerId,
        }
    }
}

/// The groups of the friend list.
#[derive(Clone, Copy, Debug, PartialEq, Eq, Structural)]
pub enum StatusGroup {
    Online,
    Busy,
    Away,
    Other,
    Offline,
}

/// The group of a friend with the given availability: `chat` is online,
/// `dnd` busy, `away` away, `offline` offline, and anything else other.
pub open spec fn status_group(availability: Seq<char>) -> StatusGroup {
    if availability == "chat"@ {
        StatusGroup::Online
    } else if availability == "dnd"@ {
        StatusGroup::Busy
    } else if availability == "away"@ {
        StatusGroup::Away
    } else if availability == "offline"@ {
        StatusGroup::Offline
    } else {
        StatusGroup::Other
    }
}

/// A friend as listed: a friend without a name goes by their game name.
pub open spec fn shown_friend(f: FriendView) -> FriendView {
    if f.name.len() == 0 {
        FriendView { name: f.game_name, ..f }
    } else {
        f
    }
}

/// The content of a [`Friends`].
pub struct FriendsView {
    pub online: Seq<FriendView>,
    pub busy: Seq<FriendView>,
    pub away: Seq<FriendView>,
    pub other: Seq<FriendView>,
    pub offline: Seq<FriendView>,
}

impl FriendsView {
    /// The friends of one group, in list order.
    pub open spec fn group(self, g: StatusGroup) -> Seq<FriendView> {
        match g {
            StatusGroup::Online => self.online,
            StatusGroup::Busy => self.busy,
            StatusGroup::Away => self.away,
            StatusGroup::Other => self.other,
            StatusGroup::Offline => self.offline,
        }
    }

    /// The list with group `g` replaced by `s`.
    pub open spec fn with_group(self, g: StatusGroup, s: Seq<FriendView>) -> FriendsView {
        match g {
            StatusGroup::Online => FriendsView { online: s, ..self },
            StatusGroup::Busy => FriendsView { busy: s, ..self },
            StatusGroup::Away => FriendsView { away: s, ..self },
            StatusGroup::Other => FriendsView { other: s, ..self },
            StatusGroup::Offline => FriendsView { offline: s, ..self },
        }
    }
}

/// The list with `f` shown at the front of its group.
pub open spec fn inserted(fs: FriendsView, f: FriendView) -> FriendsView {
    let g = status_group(f.availability);
    fs.with_group(g, seq![shown_friend(f)] + fs.group(g))
}

/// The test "is not the summoner `id`".
pub open spec fn other_summoner(id: u32) -> spec_fn(FriendView) -> bool {
    |f: FriendView| f.summoner_id != id
}

/// The list without any entry for the summoner `id`.
pub open spec fn without_summoner(fs: FriendsView, id: u32) -> FriendsView {
    FriendsView {
        online: fs.online.filter(other_summoner(id)),
        busy: fs.busy.filter(other_summoner(id)),
        away: fs.away.filter(other_summoner(id)),
        other: fs.other.filter(other_summoner(id)),
        offline: fs.offline.filter(other_summoner(id)),
    }
}

/// The list after an event about `f`: any old entry for the same summoner is
/// dropped and `f` is shown at the front of its group.
pub open spec fn updated(fs: FriendsView, f: FriendView) -> FriendsView {
    inserted(without_summoner(fs, f.summoner_id), f)
}

/// The test "belongs to group `g`".
pub open spec fn in_group(g: StatusGroup) -> spec_fn(FriendView) -> bool {
    |f: FriendView| status_group(f.availability) == g
}

/// The friends of `s` in group `g`, as listed after inserting `s` in order:
/// the last inserted first.
pub open spec fn listed_group(s: Seq<FriendView>, g: StatusGroup) -> Seq<FriendView> {
    s.filter(in_group(g)).map_values(|f: FriendView| shown_friend(f)).reverse()
}

/// Every friend inserted from a list is listed in exactly one group: the
/// groups' sizes add up to the number of friends.
pub proof fn lemma_groups_partition(s: Seq<FriendView>)
    ensures
        listed_group(s, StatusGroup::Online).len() + listed_group(s, StatusGroup::Busy).len()
            + listed_group(s, StatusGroup::Away).len() + listed_group(s, StatusGroup::Other).len()
            + listed_group(s, StatusGroup::Offline).len() == s.len(),
    decreases s.len(),
{
    if s.len() == 0 {
        reveal(Seq::filter);
    } else {
        let t = s.drop_last();
        let x = s.last();
        lemma_groups_partition(t);
        assert(t.push(x) =~= s);
        t.lemma_filter_push(x, in_group(StatusGroup::Online));
        t.lemma_filter_push(x, in_group(StatusGroup::Busy));
        t.lemma_filter_push(x, in_group(StatusGroup::Away));
        t.lemma_filter_push(x, in_group(StatusGroup::Other));
        t.lemma_filter_push(x, in_group(StatusGroup::Offline));
    }
}

/// The group of an availability is decided by the reported text alone:
/// online exactly for `chat`, busy exactly for `dnd`, away exactly for
/// `away`, offline exactly for `offline`, and other for anything else.
pub proof fn lemma_status_group(availability: Seq<char>)
    ensures
        (status_group(availability) == StatusGroup::Online) == (availability == "chat"@),
        (status_group(availability) == StatusGroup::Busy) == (availability == "dnd"@),
        (status_group(availability) == StatusGroup::Away) == (availability == "away"@),
        (status_group(availability) == StatusGroup::Offline) == (availability == "offline"@),
        (status_group(availability) == StatusGroup::Other) == (availability != "chat"@
            && availability != "dnd"@ && availability != "away"@ && availability != "offline"@),
{
    reveal_strlit("chat");
    reveal_strlit("dnd");
    reveal_strlit("away");
    reveal_strlit("offline");
    assert("chat"@[0] != "away"@[0]);
    assert("offline"@.len() != "chat"@.len() && "offline"@.len() != "dnd"@.len()
        && "offline"@.len() != "away"@.len() && "dnd"@.len() != "chat"@.len());
}

/// The test "reports the availability `a`".
pub open spec fn reports(a: Seq<char>) -> spec_fn(FriendView) -> bool {
    |f: FriendView| f.availability == a
}

/// The test "reports none of `chat`, `dnd`, `away` and `offline`".
pub open spec fn reports_other() -> spec_fn(FriendView) -> bool {
    |f: FriendView|
        f.availability != "chat"@ && f.availability != "dnd"@ && f.availability != "away"@
            && f.availability != "offline"@
}

/// The friends of `s` that pass `p`, as listed: shown, the last one first.
pub open spec fn listed_reverse(s: Seq<FriendView>, p: spec_fn(FriendView) -> bool) -> Seq<FriendView> {
    s.filter(p).map_values(|f: FriendView| shown_friend(f)).reverse()
}

/// The groups hold the friends by their reported availability: online those
/// reporting `chat`, busy `dnd`, away `away`, offline `offline`, and other
/// everyone else, each the last inserted first.
pub proof fn lemma_groups_by_availability(s: Seq<FriendView>)
    ensures
        listed_group(s, StatusGroup::Online) == listed_reverse(s, reports("chat"@)),
        listed_group(s, StatusGroup::Busy) == listed_reverse(s, reports("dnd"@)),
        listed_group(s, StatusGroup::Away) == listed_reverse(s, reports("away"@)),
        listed_group(s, StatusGroup::Offline) == listed_reverse(s, reports("offline"@)),
        listed_group(s, StatusGroup::Other) == listed_reverse(s, reports_other()),
{
    assert forall|f: FriendView| #[trigger] in_group(StatusGroup::Online)(f) == reports("chat"@)(f)
        && in_group(StatusGroup::Busy)(f) == reports("dnd"@)(f)
        && in_group(StatusGroup::Away)(f) == reports("away"@)(f)
        && in_group(StatusGroup::Offline)(f) == reports("offline"@)(f)
        && in_group(StatusGroup::Other)(f) == reports_other()(f) by {
        lemma_status_group(f.availability);
    }
    assert(in_group(StatusGroup::Online) =~= reports("chat"@));
    assert(in_group(StatusGroup::Busy) =~= reports("dnd"@));
    assert(in_group(StatusGroup::Away) =~= reports("away"@));
    assert(in_group(StatusGroup::Offline) =~= reports("offline"@));
    assert(in_group(StatusGroup::Other) =~= reports_other());
}

/// The friend list, grouped by availability.
#[derive(Clone)]
pub struct Friends {
    pub online: Vec<Friend>,
    pub busy: Vec<Friend>,
    pub away: Vec<Friend>,
    pub other: Vec<Friend>,
    pub offline: Vec<Friend>,
}

impl View for Friends {
    type V = FriendsView;

    open spec fn view(&self) -> FriendsView {
        FriendsView {
            online: views(self.online@),
            busy: views(self.busy@),
            away: views(self.away@),
            other: views(self.other@),
            offline: views(self.offline@),
        }
    }
}

impl Default for Friends {
    fn default() -> (r: Self)
        ensures
            r@.online.len() == 0,
            r@.busy.len() == 0,
            r@.away.len() == 0,
            r@.other.len() == 0,
            r@.offline.len() == 0,
    {
        Friends {
            online: Vec::new(),
            busy: Vec::new(),
            away: Vec::new(),
            other: Vec::new(),
            offline: Vec::new(),
        }
    }
}

/// The group for an availability.
fn group_of(availability: &str) -> (g: StatusGroup)
    ensures
        g == status_group(availability@),
{
    if text_eq(availability, "chat") {
        StatusGroup::Online
    } else if text_eq(availability, "dnd") {
        StatusGroup::Busy
    } else if text_eq(availability, "away") {
        StatusGroup::Away
    } else if text_eq(availability, "offline") {
        StatusGroup::Offline
    } else {
        StatusGroup::Other
    }
}

/// Drops every entry for the summoner `id`, keeping the others in order.
fn remove_summoner(list: &mut Vec<Friend>, id: u32)
    ensures
        views(final(list)@) == views(old(list)@).filter(other_summoner(id)),
{
    let ghost orig = views(list@);
    let mut rest: Vec<Friend> = Vec::new();
    std::mem::swap(&mut rest, list);
    let ghost mut taken: int = 0;
    assert(views(rest@) =~= orig.skip(0));
    assert(orig.take(0).filter(other_summoner(id)) =~= Seq::<FriendView>::empty()) by {
        reveal(Seq::filter);
    }
    assert(views(list@) =~= Seq::<FriendView>::empty());
    while rest.len() > 0
        invariant
            0 <= taken <= orig.len(),
            views(rest@) == orig.skip(taken),
            views(list@) == orig.take(taken).filter(other_summoner(id)),
        decreases rest.len(),
    {
        let ghost vin = rest@;
        let f = rest.remove(0);
        let ghost fv = f@;
        assert(views(vin) == orig.skip(taken));
        assert(views(vin).len() == vin.len());
        assert(orig.skip(taken)[0] == orig[taken]);
        assert(views(vin)[0] == vin[0]@);
        assert(views(rest@) =~= orig.skip(taken + 1));
        let ghost before = views(list@);
        proof {
            assert(orig.take(taken).push(fv) =~= orig.take(taken + 1));
            orig.take(taken).lemma_filter_push(fv, other_summoner(id));
        }
        if f.summonerId != id {
            list.push(f);
            assert(views(list@) =~= before.push(fv));
        }
        proof {
            taken = taken + 1;
        }
    }
    assert(orig.take(taken) =~= orig);
}


/// Filtering twice by the same test is filtering once.
proof fn lemma_filter_twice<A>(s: Seq<A>, p: spec_fn(A) -> bool)
    ensures
        s.filter(p).filter(p) == s.filter(p),
    decreases s.len(),
{
    if s.len() > 0 {
        let t = s.drop_last();
        let x = s.last();
        lemma_filter_twice(t, p);
        assert(t.push(x) =~= s);
        t.lemma_filter_push(x, p);
        t.filter(p).lemma_filter_push(x, p);
    } else {
        assert(s.filter(p) =~= s) by {
            reveal(Seq::filter);
        }
    }
}

/// A friend event applied twice leaves the list as applying it once does.
pub proof fn lemma_update_idempotent(fs: FriendsView, f: FriendView)
    ensures
        updated(updated(fs, f), f) == updated(fs, f),
{
    let id = f.summoner_id;
    let g = status_group(f.availability);
    let once = updated(fs, f);
    let p = other_summoner(id);
    let cleared = without_summoner(fs, id);
    assert forall|h: StatusGroup| #[trigger] without_summoner(once, id).group(h) == cleared.group(h) by {
        lemma_filter_twice(fs.group(h), p);
        if h == g {
            let rest = cleared.group(h);
            assert(once.group(h) == seq![shown_friend(f)] + rest);
            Seq::filter_distributes_over_add(seq![shown_friend(f)], rest, p);
            Seq::<FriendView>::empty().lemma_filter_push(shown_friend(f), p);
            assert(seq![shown_friend(f)] =~= Seq::<FriendView>::empty().push(shown_friend(f)));
            assert(Seq::<FriendView>::empty().filter(p) =~= Seq::<FriendView>::empty()) by {
                reveal(Seq::filter);
            }
            assert(Seq::<FriendView>::empty() + rest =~= rest);
        }
    }
    assert(without_summoner(once, id) == cleared) by {
        assert(without_summoner(once, id).group(StatusGroup::Online) == cleared.group(StatusGroup::Online));
        assert(without_summoner(once, id).group(StatusGroup::Busy) == cleared.group(StatusGroup::Busy));
        assert(without_summoner(once, id).group(StatusGroup::Away) == cleared.group(StatusGroup::Away));
        assert(without_summoner(once, id).group(StatusGroup::Other) == cleared.group(StatusGroup::Other));
        assert(without_summoner(once, id).group(StatusGroup::Offline) == cleared.group(StatusGroup::Offline));
    }
}

/// After a friend event, the list holds exactly one entry for that summoner:
/// the friend, shown at the front of the group for its availability.
pub proof fn lemma_update_single_entry(fs: FriendsView, f: FriendView)
    ensures
        updated(fs, f).group(status_group(f.availability))[0] == shown_friend(f),
        forall|h: StatusGroup, i: int|
            0 <= i < updated(fs, f).group(h).len() && (h != status_group(f.availability) || i
                != 0) ==> (#[trigger] updated(fs, f).group(h)[i]).summoner_id != f.summoner_id,
{
    let id = f.summoner_id;
    let g = status_group(f.availability);
    let cleared = without_summoner(fs, id);
    assert forall|h: StatusGroup, i: int|
        0 <= i < updated(fs, f).group(h).len() && (h != g || i != 0) implies (
        #[trigger] updated(fs, f).group(h)[i]).summoner_id != id by {
        let filtered = fs.group(h).filter(other_summoner(id));
        assert(cleared.group(h) == filtered);
        if h == g {
            assert(updated(fs, f).group(h)[i] == filtered[i - 1]);
            fs.group(h).lemma_filter_pred(other_summoner(id), i - 1);
        } else {
            assert(updated(fs, f).group(h)[i] == filtered[i]);
            fs.group(h).lemma_filter_pred(other_summoner(id), i);
        }
    }
}

/// Every friend of the list, group by group.
pub open spec fn all_friends(fs: FriendsView) -> Seq<FriendView> {
    fs.online + fs.busy + fs.away + fs.other + fs.offline
}

/// No summoner is listed twice.
pub open spec fn ids_unique(s: Seq<FriendView>) -> bool {
    forall|i: int, j: int|
        0 <= i < j < s.len() ==> (#[trigger] s[i]).summoner_id != (#[trigger] s[j]).summoner_id
}

/// The test "is the summoner `id`".
pub open spec fn same_summoner(id: u32) -> spec_fn(FriendView) -> bool {
    |f: FriendView| f.summoner_id == id
}

/// The friends that one test keeps and those its opposite keeps add up to
/// all friends.
proof fn lemma_filter_complement_len(
    s: Seq<FriendView>,
    p: spec_fn(FriendView) -> bool,
    q: spec_fn(FriendView) -> bool,
)
    requires
        forall|x: FriendView| #[trigger] q(x) == !p(x),
    ensures
        s.filter(p).len() + s.filter(q).len() == s.len(),
    decreases s.len(),
{
    if s.len() > 0 {
        let t = s.drop_last();
        let x = s.last();
        lemma_filter_complement_len(t, p, q);
        assert(t.push(x) =~= s);
        t.lemma_filter_push(x, p);
        t.lemma_filter_push(x, q);
        assert(q(x) == !p(x));
    } else {
        reveal(Seq::filter);
    }
}

/// A filter keeps nothing when nothing passes it.
proof fn lemma_filter_none(s: Seq<FriendView>, p: spec_fn(FriendView) -> bool)
    requires
        forall|i: int| 0 <= i < s.len() ==> !p(#[trigger] s[i]),
    ensures
        s.filter(p) == Seq::<FriendView>::empty(),
    decreases s.len(),
{
    reveal(Seq::filter);
    if s.len() > 0 {
        let t = s.drop_last();
        assert forall|i: int| 0 <= i < t.len() implies !p(#[trigger] t[i]) by {
            assert(t[i] == s[i]);
        }
        lemma_filter_none(t, p);
        assert(!p(s[s.len() - 1]));
    } else {
        assert(s.filter(p) =~= Seq::<FriendView>::empty());
    }
}

/// Keeping part of a list without repeated summoners repeats none.
proof fn lemma_filter_ids_unique(s: Seq<FriendView>, p: spec_fn(FriendView) -> bool)
    requires
        ids_unique(s),
    ensures
        ids_unique(s.filter(p)),
    decreases s.len(),
{
    if s.len() > 0 {
        let t = s.drop_last();
        let x = s.last();
        assert(ids_unique(t)) by {
            assert forall|i: int, j: int| 0 <= i < j < t.len() implies (#[trigger] t[i]).summoner_id
                != (#[trigger] t[j]).summoner_id by {
                assert(t[i] == s[i] && t[j] == s[j]);
            }
        }
        lemma_filter_ids_unique(t, p);
        assert(t.push(x) =~= s);
        t.lemma_filter_push(x, p);
        if p(x) {
            let ft = t.filter(p);
            let fs = ft.push(x);
            assert forall|i: int, j: int| 0 <= i < j < fs.len() implies (#[trigger] fs[i]).summoner_id
                != (#[trigger] fs[j]).summoner_id by {
                if j == fs.len() - 1 {
                    assert(fs[i] == ft[i]);
                    assert(ft.contains(ft[i]));
                    t.lemma_filter_contains_rev(p, ft[i]);
                    let m = choose|m: int| 0 <= m < t.len() && t[m] == ft[i];
                    assert(s[m] == ft[i]);
                    assert(s[s.len() - 1] == x);
                } else {
                    assert(fs[i] == ft[i] && fs[j] == ft[j]);
                }
            }
        }
    } else {
        reveal(Seq::filter);
    }
}

/// Dropping a summoner from every group drops it from the whole list.
proof fn lemma_without_all(fs: FriendsView, id: u32)
    ensures
        all_friends(without_summoner(fs, id)) == all_friends(fs).filter(other_summoner(id)),
{
    let other = other_summoner(id);
    Seq::filter_distributes_over_add(fs.online, fs.busy, other);
    Seq::filter_distributes_over_add(fs.online + fs.busy, fs.away, other);
    Seq::filter_distributes_over_add(fs.online + fs.busy + fs.away, fs.other, other);
    Seq::filter_distributes_over_add(fs.online + fs.busy + fs.away + fs.other, fs.offline, other);
}

/// Inserting a friend puts it at one place of the whole list.
proof fn lemma_inserted_all(fs: FriendsView, f: FriendView) -> (pos: int)
    ensures
        0 <= pos <= all_friends(fs).len(),
        all_friends(inserted(fs, f)) == all_friends(fs).insert(pos, shown_friend(f)),
{
    let sf = shown_friend(f);
    let o = fs.online.len() as int;
    let b = fs.busy.len() as int;
    let a = fs.away.len() as int;
    let t = fs.other.len() as int;
    match status_group(f.availability) {
        StatusGroup::Online => {
            assert(all_friends(inserted(fs, f)) =~= all_friends(fs).insert(0, sf));
            0
        },
        StatusGroup::Busy => {
            assert(all_friends(inserted(fs, f)) =~= all_friends(fs).insert(o, sf));
            o
        },
        StatusGroup::Away => {
            assert(all_friends(inserted(fs, f)) =~= all_friends(fs).insert(o + b, sf));
            o + b
        },
        StatusGroup::Other => {
            assert(all_friends(inserted(fs, f)) =~= all_friends(fs).insert(o + b + a, sf));
            o + b + a
        },
        StatusGroup::Offline => {
            assert(all_friends(inserted(fs, f)) =~= all_friends(fs).insert(o + b + a + t, sf));
            o + b + a + t
        },
    }
}

/// Inserting a summoner's entry into a list without that summoner leaves
/// exactly one entry for it.
proof fn lemma_insert_single(w: Seq<FriendView>, pos: int, x: FriendView)
    requires
        0 <= pos <= w.len(),
        forall|i: int| 0 <= i < w.len() ==> (#[trigger] w[i]).summoner_id != x.summoner_id,
    ensures
        w.insert(pos, x).filter(same_summoner(x.summoner_id)).len() == 1,
{
    let same = same_summoner(x.summoner_id);
    let front = w.take(pos);
    let back = w.skip(pos);
    assert(w.insert(pos, x) =~= front + seq![x] + back);
    assert forall|i: int| 0 <= i < front.len() implies !same(#[trigger] front[i]) by {
        assert(front[i] == w[i]);
    }
    assert forall|i: int| 0 <= i < back.len() implies !same(#[trigger] back[i]) by {
        assert(back[i] == w[pos + i]);
    }
    lemma_filter_none(front, same);
    lemma_filter_none(back, same);
    Seq::filter_distributes_over_add(front + seq![x], back, same);
    Seq::filter_distributes_over_add(front, seq![x], same);
    Seq::<FriendView>::empty().lemma_filter_push(x, same);
    assert(seq![x] =~= Seq::<FriendView>::empty().push(x));
    assert(Seq::<FriendView>::empty().filter(same) =~= Seq::<FriendView>::empty()) by {
        reveal(Seq::filter);
    }
    assert(w.insert(pos, x).filter(same) =~= seq![x]);
}

/// Inserting a summoner's entry into a list without repeats and without that
/// summoner gives a list without repeats.
proof fn lemma_insert_unique(w: Seq<FriendView>, pos: int, x: FriendView)
    requires
        0 <= pos <= w.len(),
        ids_unique(w),
        forall|i: int| 0 <= i < w.len() ==> (#[trigger] w[i]).summoner_id != x.summoner_id,
    ensures
        ids_unique(w.insert(pos, x)),
{
    let upd = w.insert(pos, x);
    assert forall|i: int, j: int| 0 <= i < j < upd.len() implies (#[trigger] upd[i]).summoner_id
        != (#[trigger] upd[j]).summoner_id by {
        if i < pos {
            assert(upd[i] == w[i]);
            if j < pos {
                assert(upd[j] == w[j]);
            } else if j > pos {
                assert(upd[j] == w[j - 1]);
            }
        } else if i == pos {
            assert(upd[j] == w[j - 1]);
        } else {
            assert(upd[i] == w[i - 1] && upd[j] == w[j - 1]);
        }
    }
}

/// A friend event keeps the list free of repeated summoners, leaves exactly
/// one entry for the friend's summoner, and changes the number of friends
/// to the old number, less the entries it drops for that summoner, plus one.
pub proof fn lemma_update_counts(fs: FriendsView, f: FriendView)
    ensures
        ids_unique(all_friends(fs)) ==> ids_unique(all_friends(updated(fs, f))),
        all_friends(updated(fs, f)).filter(same_summoner(f.summoner_id)).len() == 1,
        all_friends(updated(fs, f)).len() == all_friends(fs).len() - all_friends(fs).filter(
            same_summoner(f.summoner_id),
        ).len() + 1,
{
    let id = f.summoner_id;
    let all = all_friends(fs);
    let cleared = without_summoner(fs, id);
    let w = all_friends(cleared);
    lemma_without_all(fs, id);
    let pos = lemma_inserted_all(cleared, f);
    assert forall|i: int| 0 <= i < w.len() implies (#[trigger] w[i]).summoner_id != id by {
        all.lemma_filter_pred(other_summoner(id), i);
    }
    lemma_filter_complement_len(all, other_summoner(id), same_summoner(id));
    lemma_insert_single(w, pos, shown_friend(f));
    if ids_unique(all) {
        lemma_filter_ids_unique(all, other_summoner(id));
        lemma_insert_unique(w, pos, shown_friend(f));
    }
}

/// A friend event keeps every entry of other summoners in its group.
pub proof fn lemma_update_keeps_others(fs: FriendsView, f: FriendView, h: StatusGroup, i: int)
    requires
        0 <= i < fs.group(h).len(),
        fs.group(h)[i].summoner_id != f.summoner_id,
    ensures
        updated(fs, f).group(h).contains(fs.group(h)[i]),
{
    let id = f.summoner_id;
    let filtered = fs.group(h).filter(other_summoner(id));
    fs.group(h).lemma_filter_contains(other_summoner(id), i);
    assert(without_summoner(fs, id).group(h) == filtered);
    if h == status_group(f.availability) {
        let x = fs.group(h)[i];
        let k = choose|k: int| 0 <= k < filtered.len() && filtered[k] == x;
        assert(updated(fs, f).group(h)[k + 1] == x);
    }
}

impl Friends {
    /// Shows `friend` at the front of the group for its availability, under
    /// its game name when it has no name.
    fn insert(&mut self, friend: Friend)
        ensures
            final(self)@ == inserted(old(self)@, friend@),
    {
        let ghost fv = friend@;
        let mut friend = friend;
        if friend.name.as_str().is_empty() {
            friend.name = friend.gameName.clone();
        }
        assert(friend@ == shown_friend(fv));
        let ghost shown = friend@;
        match group_of(friend.availability.as_str()) {
            StatusGroup::Online => {
                let ghost before = views(self.online@);
                self.online.insert(0, friend);
                assert(views(self.online@) =~= seq![shown] + before);
            },
            StatusGroup::Busy => {
                let ghost before = views(self.busy@);
                self.busy.insert(0, friend);
                assert(views(self.busy@) =~= seq![shown] + before);
            },
            StatusGroup::Away => {
                let ghost before = views(self.away@);
                self.away.insert(0, friend);
                assert(views(self.away@) =~= seq![shown] + before);
            },
            StatusGroup::Offline => {
                let ghost before = views(self.offline@);
                self.offline.insert(0, friend);
                assert(views(self.offline@) =~= seq![shown] + before);
            },
            StatusGroup::Other => {
                let ghost before = views(self.other@);
                self.other.insert(0, friend);
                assert(views(self.other@) =~= seq![shown] + before);
            },
        }
    }

    /// Replaces whatever the list holds for `friend`'s summoner by `friend`,
    /// shown at the front of the group for its availability; every other
    /// entry stays where it was.
    pub fn update(&mut self, friend: Friend)
        ensures
            final(self)@ == updated(old(self)@, friend@),
    {
        let id = friend.summonerId;
        remove_summoner(&mut self.online, id);
        remove_summoner(&mut self.busy, id);
        remove_summoner(&mut self.away, id);
        remove_summoner(&mut self.other, id);
        remove_summoner(&mut self.offline, id);
        self.insert(friend);
    }

    /// The friend list for `friend_vec`: each friend is inserted in turn, so
    /// every group holds its friends in reverse order of `friend_vec`, each
    /// under its game name when it has no name.
    pub fn from(friend_vec: Vec<Friend>) -> (r: Friends)
        ensures
            forall|g: StatusGroup| #[trigger] r@.group(g) == listed_group(views(friend_vec@), g),
            r@.online == listed_reverse(views(friend_vec@), reports("chat"@)),
            r@.busy == listed_reverse(views(friend_vec@), reports("dnd"@)),
            r@.away == listed_reverse(views(friend_vec@), reports("away"@)),
            r@.offline == listed_reverse(views(friend_vec@), reports("offline"@)),
            r@.other == listed_reverse(views(friend_vec@), reports_other()),
    {
        let ghost orig = views(friend_vec@);
        let mut friends = Friends::default();
        let mut input = friend_vec;
        let ghost mut taken: int = 0;
        assert(views(input@) =~= orig.skip(0));
        assert forall|g: StatusGroup| #[trigger] friends@.group(g) == listed_group(orig.take(0), g) by {
            assert(orig.take(0).filter(in_group(g)) =~= Seq::<FriendView>::empty()) by {
                reveal(Seq::filter);
            }
            assert(listed_group(orig.take(0), g) =~= Seq::<FriendView>::empty());
            assert(friends@.group(g) =~= Seq::<FriendView>::empty());
        }
        while input.len() > 0
            invariant
                0 <= taken <= orig.len(),
                views(input@) == orig.skip(taken),
                forall|g: StatusGroup| #[trigger] friends@.group(g) == listed_group(orig.take(taken), g),
            decreases input.len(),
        {
            let ghost vin = input@;
            let f = input.remove(0);
            let ghost fv = f@;
            assert(views(vin) == orig.skip(taken));
            assert(views(vin).len() == vin.len());
            assert(orig.skip(taken)[0] == orig[taken]);
            assert(views(vin)[0] == vin[0]@);
            assert(views(input@) =~= orig.skip(taken + 1));
            let ghost before = friends@;
            friends.insert(f);
            proof {
                let prev = orig.take(taken);
                assert(prev.push(fv) =~= orig.take(taken + 1));
                assert forall|g: StatusGroup| #[trigger] friends@.group(g) == listed_group(
                    prev.push(fv),
                    g,
                ) by {
                    prev.lemma_filter_push(fv, in_group(g));
                    let shown = |x: FriendView| shown_friend(x);
                    if status_group(fv.availability) == g {
                        assert(prev.filter(in_group(g)).push(fv).map_values(shown) =~= prev.filter(
                            in_group(g),
                        ).map_values(shown).push(shown_friend(fv)));
                        assert(prev.filter(in_group(g)).map_values(shown).push(
                            shown_friend(fv),
                        ).reverse() =~= seq![shown_friend(fv)] + prev.filter(in_group(g)).map_values(
                            shown,
                        ).reverse());
                        assert(before.group(g) == listed_group(prev, g));
                    } else {
                        assert(before.group(g) == listed_group(prev, g));
                    }
                }
                taken = taken + 1;
            }
        }
        assert(orig.take(taken) =~= orig);
        proof {
            lemma_groups_by_availability(orig);
            assert(friends@.group(StatusGroup::Online) == listed_group(orig, StatusGroup::Online));
            assert(friends@.group(StatusGroup::Busy) == listed_group(orig, StatusGroup::Busy));
            assert(friends@.group(StatusGroup::Away) == listed_group(orig, StatusGroup::Away));
            assert(friends@.group(StatusGroup::Offline) == listed_group(orig, StatusGroup::Offline));
            assert(friends@.group(StatusGroup::Other) == listed_group(orig, StatusGroup::Other));
        }
        friends
    }
}

} // verus!
