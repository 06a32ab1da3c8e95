//! The game queues that the client offers, sorted into the ranked, casual and
//! versus-AI lists that the queue picker shows.
use vstd::prelude::*;
use vstd::string::StringExecFns;
use crate::sorting::{Described, description_key, has_key, key_group, sort_by_description,
    stable_sorted, views, lemma_filter_and, lemma_filter_at_most_one, lemma_filter_map,
    lemma_filter_member, lemma_filter_same_records, lemma_same_records_short,
    lemma_stable_sorted_covers, lemma_stable_sorted_filter, lemma_stable_sorted_member,
    lemma_stable_sorted_unique};
use crate::text::text_bytes;
use vstd::utf8::encode_utf8_decode_utf8;
use crate::text::{has_infix, has_prefix, text_contains, text_eq, text_starts_with};

verus! {

broadcast use vstd::seq_lib::group_seq_properties;

/// A game queue as the client's queue list reports it.
#[allow(non_snake_case)]
pub struct Queue {
    pub category: String,
    pub description: String,
    pub gameMode: String,
    pub isRanked: bool,
    pub queueAvailability: String,
}

/// The content of a [`Queue`].
pub struct QueueView {
    pub category: Seq<char>,
    pub description: Seq<char>,
    pub game_mode: Seq<char>,
    pub is_ranked: bool,
    pub queue_availability: Seq<char>,
}

impl View for Queue {
    type V = QueueView;

    open spec fn view(&self) -> QueueView {
        QueueView {
            category: self.category@,
            description: self.description@,
            game_mode: self.gameMode@,
            is_ranked: self.isRanked,
            queue_availability: self.queueAvailability@,
        }
    }
}

impl Clone for Queue {
    fn clone(&self) -> (r: Self)
        ensures
            r@ == self@,
    {
        Queue {
            category: self.category.clone(),
            description: self.description.clone(),
            gameMode: self.gameMode.clone(),
            isRanked: self.isRanked,
            queueAvailability: self.queueAvailability.clone(),
        }
    }
}

impl Described for Queue {
    open spec fn description_of(v: QueueView) -> Seq<char> {
        v.description
    }

    fn description_text(&self) -> (s: &str) {
        self.description.as_str()
    }
}

/// The queue can be joined now.
pub open spec fn is_available(q: QueueView) -> bool {
    q.queue_availability == "Available"@
}

/// The description shown for a queue: Nexus Blitz by its proper name, the
/// game mode in front of the description for modes other than the classic
/// map, ARAM and the tutorials, and the description alone otherwise.
pub open spec fn display_description(q: QueueView) -> Seq<char> {
    if q.game_mode == "NEXUSBLITZ"@ {
        "Nexus Blitz"@
    } else if q.game_mode != "CLASSIC"@ && q.game_mode != "ARAM"@ && !has_prefix(
        q.game_mode,
        "TUTORIAL"@,
    ) {
        q.game_mode + ": "@ + q.description
    } else {
        q.description
    }
}

/// The shown description by game mode: Nexus Blitz queues are shown as
/// `Nexus Blitz`, queues of the classic map, of ARAM and of the tutorials
/// keep their description, and every other mode is put in front of the
/// description as `<mode>: `.
pub proof fn lemma_display_description(q: QueueView)
    ensures
        q.game_mode == "NEXUSBLITZ"@ ==> display_description(q) == "Nexus Blitz"@,
        q.game_mode == "CLASSIC"@ || q.game_mode == "ARAM"@ || has_prefix(q.game_mode, "TUTORIAL"@)
            ==> display_description(q) == q.description,
        q.game_mode != "NEXUSBLITZ"@ && q.game_mode != "CLASSIC"@ && q.game_mode != "ARAM"@
            && !has_prefix(q.game_mode, "TUTORIAL"@) ==> display_description(q) == q.game_mode
            + ": "@ + q.description,
{
    reveal_strlit("NEXUSBLITZ");
    reveal_strlit("CLASSIC");
    reveal_strlit("ARAM");
    reveal_strlit("TUTORIAL");
    if q.game_mode == "NEXUSBLITZ"@ {
        assert(q.game_mode.subrange(0, "TUTORIAL"@.len() as int)[0] != "TUTORIAL"@[0]);
        assert(q.game_mode != "CLASSIC"@);
        assert(q.game_mode != "ARAM"@);
    }
}

/// The queue with the description that is shown for it.
pub open spec fn with_display_description(q: QueueView) -> QueueView {
    QueueView { description: display_description(q), ..q }
}

/// The available queues of `s`, in order, with their shown descriptions.
pub open spec fn listed_queues(s: Seq<QueueView>) -> Seq<QueueView> {
    s.filter(|q: QueueView| is_available(q)).map_values(|q: QueueView| with_display_description(q))
}

/// Belongs to the ranked list: a ranked queue that is not Clash.
pub open spec fn in_ranked_list() -> spec_fn(QueueView) -> bool {
    |q: QueueView| q.is_ranked && !has_infix(q.description, "Clash"@)
}

/// Belongs to the versus-AI list: a versus-AI queue or a tutorial.
pub open spec fn in_versus_ai_list() -> spec_fn(QueueView) -> bool {
    |q: QueueView| q.category == "VersusAi"@ || has_infix(q.description, "Tutorial"@)
}

/// Belongs to the casual list: neither ranked, versus-AI nor a tutorial.
pub open spec fn in_casual_list() -> spec_fn(QueueView) -> bool {
    |q: QueueView|
        !q.is_ranked && q.category != "VersusAi"@ && !has_infix(q.description, "Tutorial"@)
}

/// The lists that [`Queues::from`] makes: no queue is in both the casual and
/// the versus-AI list; the ranked list holds exactly the listed ranked
/// queues other than Clash, the versus-AI list exactly the listed queues of
/// category `VersusAi` or with `Tutorial` in their description, and the
/// casual list only queues that are neither ranked, versus-AI nor tutorials;
/// every listed queue that is not ranked is in the casual or the versus-AI
/// list.
pub proof fn lemma_queue_lists(
    ranked: Seq<QueueView>,
    casual: Seq<QueueView>,
    versus_ai: Seq<QueueView>,
    listed: Seq<QueueView>,
)
    requires
        stable_sorted::<Queue>(ranked, listed.filter(in_ranked_list())),
        stable_sorted::<Queue>(casual, listed.filter(in_casual_list())),
        stable_sorted::<Queue>(versus_ai, listed.filter(in_versus_ai_list())),
    ensures
        forall|i: int, j: int|
            0 <= i < casual.len() && 0 <= j < versus_ai.len() ==> #[trigger] casual[i]
                != #[trigger] versus_ai[j],
        forall|i: int|
            0 <= i < ranked.len() ==> (#[trigger] ranked[i]).is_ranked && !has_infix(
                ranked[i].description,
                "Clash"@,
            ),
        forall|i: int|
            0 <= i < listed.len() && !(#[trigger] listed[i]).is_ranked ==> casual.contains(
                listed[i],
            ) || versus_ai.contains(listed[i]),
        forall|i: int|
            0 <= i < versus_ai.len() ==> (#[trigger] versus_ai[i]).category == "VersusAi"@
                || has_infix(versus_ai[i].description, "Tutorial"@),
        forall|i: int|
            0 <= i < casual.len() ==> !(#[trigger] casual[i]).is_ranked && casual[i].category
                != "VersusAi"@ && !has_infix(casual[i].description, "Tutorial"@),
        forall|i: int|
            0 <= i < listed.len() && ((#[trigger] listed[i]).category == "VersusAi"@ || has_infix(
                listed[i].description,
                "Tutorial"@,
            )) ==> versus_ai.contains(listed[i]),
        forall|i: int|
            0 <= i < listed.len() && (#[trigger] listed[i]).is_ranked && !has_infix(
                listed[i].description,
                "Clash"@,
            ) ==> ranked.contains(listed[i]),
{
    assert forall|i: int| 0 <= i < versus_ai.len() implies (#[trigger] versus_ai[i]).category
        == "VersusAi"@ || has_infix(versus_ai[i].description, "Tutorial"@) by {
        lemma_stable_sorted_member::<Queue>(versus_ai, listed.filter(in_versus_ai_list()), i);
        lemma_filter_member(listed, in_versus_ai_list(), versus_ai[i]);
    }
    assert forall|i: int| 0 <= i < casual.len() implies !(#[trigger] casual[i]).is_ranked
        && casual[i].category != "VersusAi"@ && !has_infix(casual[i].description, "Tutorial"@) by {
        lemma_stable_sorted_member::<Queue>(casual, listed.filter(in_casual_list()), i);
        lemma_filter_member(listed, in_casual_list(), casual[i]);
    }
    assert forall|i: int|
        0 <= i < listed.len() && ((#[trigger] listed[i]).category == "VersusAi"@ || has_infix(
            listed[i].description,
            "Tutorial"@,
        )) implies versus_ai.contains(listed[i]) by {
        listed.lemma_filter_contains(in_versus_ai_list(), i);
        let f = listed.filter(in_versus_ai_list());
        let j = choose|j: int| 0 <= j < f.len() && f[j] == listed[i];
        lemma_stable_sorted_covers::<Queue>(versus_ai, f, j);
    }
    assert forall|i: int|
        0 <= i < listed.len() && (#[trigger] listed[i]).is_ranked && !has_infix(
            listed[i].description,
            "Clash"@,
        ) implies ranked.contains(listed[i]) by {
        listed.lemma_filter_contains(in_ranked_list(), i);
        let f = listed.filter(in_ranked_list());
        let j = choose|j: int| 0 <= j < f.len() && f[j] == listed[i];
        lemma_stable_sorted_covers::<Queue>(ranked, f, j);
    }
    assert forall|i: int, j: int|
        0 <= i < casual.len() && 0 <= j < versus_ai.len() implies #[trigger] casual[i]
        != #[trigger] versus_ai[j] by {
        lemma_stable_sorted_member::<Queue>(casual, listed.filter(in_casual_list()), i);
        lemma_filter_member(listed, in_casual_list(), casual[i]);
        lemma_stable_sorted_member::<Queue>(versus_ai, listed.filter(in_versus_ai_list()), j);
        lemma_filter_member(listed, in_versus_ai_list(), versus_ai[j]);
    }
    assert forall|i: int| 0 <= i < ranked.len() implies (#[trigger] ranked[i]).is_ranked
        && !has_infix(ranked[i].description, "Clash"@) by {
        lemma_stable_sorted_member::<Queue>(ranked, listed.filter(in_ranked_list()), i);
        lemma_filter_member(listed, in_ranked_list(), ranked[i]);
    }
    assert forall|i: int|
        0 <= i < listed.len() && !(#[trigger] listed[i]).is_ranked implies casual.contains(
        listed[i],
    ) || versus_ai.contains(listed[i]) by {
        let q = listed[i];
        if in_versus_ai_list()(q) {
            listed.lemma_filter_contains(in_versus_ai_list(), i);
            let f = listed.filter(in_versus_ai_list());
            let j = choose|j: int| 0 <= j < f.len() && f[j] == q;
            lemma_stable_sorted_covers::<Queue>(versus_ai, f, j);
        } else {
            listed.lemma_filter_contains(in_casual_list(), i);
            let f = listed.filter(in_casual_list());
            let j = choose|j: int| 0 <= j < f.len() && f[j] == q;
            lemma_stable_sorted_covers::<Queue>(casual, f, j);
        }
    }
}

/// The lists made from `v` with an unavailable queue `q0` put in at place
/// `i` are those made from `v`, for a list test `p`.
proof fn lemma_list_ignores_unavailable(
    v: Seq<QueueView>,
    q0: QueueView,
    i: int,
    p: spec_fn(QueueView) -> bool,
    a: Seq<QueueView>,
    b: Seq<QueueView>,
)
    requires
        q0.queue_availability != "Available"@,
        0 <= i <= v.len(),
        stable_sorted::<Queue>(a, listed_queues(v).filter(p)),
        stable_sorted::<Queue>(b, listed_queues(v.insert(i, q0)).filter(p)),
    ensures
        a == b,
{
    let avail = |q: QueueView| is_available(q);
    let front = v.take(i);
    let back = v.skip(i);
    assert(v.insert(i, q0) =~= front + seq![q0] + back);
    assert(v =~= front + back);
    Seq::filter_distributes_over_add(front + seq![q0], back, avail);
    Seq::filter_distributes_over_add(front, seq![q0], avail);
    Seq::filter_distributes_over_add(front, back, avail);
    front.lemma_filter_push(q0, avail);
    assert(front + seq![q0] =~= front.push(q0));
    assert(v.insert(i, q0).filter(avail) == v.filter(avail));
    lemma_stable_sorted_unique::<Queue>(a, b, listed_queues(v).filter(p), listed_queues(v.insert(i, q0)).filter(p));
}

/// The lists that [`Queues::from`] makes ignore unavailable queues: with an
/// unavailable queue put in anywhere, the three lists are the same.
pub proof fn lemma_queues_ignore_unavailable(
    v: Seq<QueueView>,
    q0: QueueView,
    i: int,
    ranked: Seq<QueueView>,
    casual: Seq<QueueView>,
    versus_ai: Seq<QueueView>,
    ranked2: Seq<QueueView>,
    casual2: Seq<QueueView>,
    versus_ai2: Seq<QueueView>,
)
    requires
        q0.queue_availability != "Available"@,
        0 <= i <= v.len(),
        stable_sorted::<Queue>(ranked, listed_queues(v).filter(in_ranked_list())),
        stable_sorted::<Queue>(casual, listed_queues(v).filter(in_casual_list())),
        stable_sorted::<Queue>(versus_ai, listed_queues(v).filter(in_versus_ai_list())),
        stable_sorted::<Queue>(ranked2, listed_queues(v.insert(i, q0)).filter(in_ranked_list())),
        stable_sorted::<Queue>(casual2, listed_queues(v.insert(i, q0)).filter(in_casual_list())),
        stable_sorted::<Queue>(
            versus_ai2,
            listed_queues(v.insert(i, q0)).filter(in_versus_ai_list()),
        ),
    ensures
        ranked == ranked2,
        casual == casual2,
        versus_ai == versus_ai2,
{
    lemma_list_ignores_unavailable(v, q0, i, in_ranked_list(), ranked, ranked2);
    lemma_list_ignores_unavailable(v, q0, i, in_casual_list(), casual, casual2);
    lemma_list_ignores_unavailable(v, q0, i, in_versus_ai_list(), versus_ai, versus_ai2);
}

/// No two available queues of `v` are shown with the same description.
pub open spec fn distinct_shown_descriptions(v: Seq<QueueView>) -> bool {
    forall|i: int, j: int|
        0 <= i < j < v.len() && is_available(#[trigger] v[i]) && is_available(#[trigger] v[j])
            ==> display_description(v[i]) != display_description(v[j])
}

/// The test "is available, passes `p` once shown, and is shown with key `k`".
spec fn listed_with_key(p: spec_fn(QueueView) -> bool, k: Seq<u8>) -> spec_fn(QueueView) -> bool {
    |q: QueueView|
        is_available(q) && p(with_display_description(q)) && description_key::<Queue>(
            with_display_description(q),
        ) == k
}

/// The listed queues of key `k` that pass `p`, taken from `s` directly.
proof fn lemma_listed_group(s: Seq<QueueView>, p: spec_fn(QueueView) -> bool, k: Seq<u8>)
    ensures
        key_group::<Queue>(listed_queues(s).filter(p), k) == s.filter(listed_with_key(p, k)).map_values(
            |q: QueueView| with_display_description(q),
        ),
{
    let avail = |q: QueueView| is_available(q);
    let shown = |q: QueueView| with_display_description(q);
    let pr = |q: QueueView| p(with_display_description(q));
    let kr = |q: QueueView| has_key::<Queue>(k)(with_display_description(q));
    let ap = |q: QueueView| is_available(q) && p(with_display_description(q));
    lemma_filter_map(s.filter(avail), shown, p, pr);
    lemma_filter_map(s.filter(avail).filter(pr), shown, has_key::<Queue>(k), kr);
    lemma_filter_and(s, avail, pr, ap);
    lemma_filter_and(s, ap, kr, listed_with_key(p, k));
}

/// Equal bytes come from equal texts.
proof fn lemma_text_bytes_injective(a: Seq<char>, b: Seq<char>)
    requires
        text_bytes(a) == text_bytes(b),
    ensures
        a == b,
{
    encode_utf8_decode_utf8(a);
    encode_utf8_decode_utf8(b);
}

/// A list made from a rearrangement `w` of `v` is the one made from `v`,
/// for a list test `p`, when the shown descriptions are distinct.
proof fn lemma_list_ignores_order(
    v: Seq<QueueView>,
    w: Seq<QueueView>,
    p: spec_fn(QueueView) -> bool,
    a: Seq<QueueView>,
    b: Seq<QueueView>,
)
    requires
        w.to_multiset() == v.to_multiset(),
        distinct_shown_descriptions(v),
        stable_sorted::<Queue>(a, listed_queues(v).filter(p)),
        stable_sorted::<Queue>(b, listed_queues(w).filter(p)),
    ensures
        a == b,
{
    assert forall|k: Seq<u8>| #[trigger] key_group::<Queue>(listed_queues(v).filter(p), k)
        == key_group::<Queue>(listed_queues(w).filter(p), k) by {
        let q = listed_with_key(p, k);
        lemma_listed_group(v, p, k);
        lemma_listed_group(w, p, k);
        assert forall|i: int, j: int| 0 <= i < j < v.len() && #[trigger] q(v[i]) implies !#[trigger] q(
            v[j],
        ) by {
            if q(v[j]) {
                lemma_text_bytes_injective(display_description(v[i]), display_description(v[j]));
            }
        }
        lemma_filter_at_most_one(v, q);
        lemma_filter_same_records(w, v, q);
        lemma_same_records_short(w.filter(q), v.filter(q));
    }
    lemma_stable_sorted_unique::<Queue>(a, b, listed_queues(v).filter(p), listed_queues(w).filter(p));
}

/// The lists that [`Queues::from`] makes do not depend on the order of the
/// queues given, when no two available queues are shown with the same
/// description: a rearrangement of the queues gives the same three lists.
pub proof fn lemma_queues_ignore_order(
    v: Seq<QueueView>,
    w: Seq<QueueView>,
    ranked: Seq<QueueView>,
    casual: Seq<QueueView>,
    versus_ai: Seq<QueueView>,
    ranked2: Seq<QueueView>,
    casual2: Seq<QueueView>,
    versus_ai2: Seq<QueueView>,
)
    requires
        w.to_multiset() == v.to_multiset(),
        distinct_shown_descriptions(v),
        stable_sorted::<Queue>(ranked, listed_queues(v).filter(in_ranked_list())),
        stable_sorted::<Queue>(casual, listed_queues(v).filter(in_casual_list())),
        stable_sorted::<Queue>(versus_ai, listed_queues(v).filter(in_versus_ai_list())),
        stable_sorted::<Queue>(ranked2, listed_queues(w).filter(in_ranked_list())),
        stable_sorted::<Queue>(casual2, listed_queues(w).filter(in_casual_list())),
        stable_sorted::<Queue>(versus_ai2, listed_queues(w).filter(in_versus_ai_list())),
    ensures
        ranked == ranked2,
        casual == casual2,
        versus_ai == versus_ai2,
{
    lemma_list_ignores_order(v, w, in_ranked_list(), ranked, ranked2);
    lemma_list_ignores_order(v, w, in_casual_list(), casual, casual2);
    lemma_list_ignores_order(v, w, in_versus_ai_list(), versus_ai, versus_ai2);
}

/// Every queue of a list made by [`Queues::from`] is one of the given queues
/// whose availability is exactly `Available`, shown with its display
/// description (for a list test `p`).
proof fn lemma_list_member_available(
    v: Seq<QueueView>,
    p: spec_fn(QueueView) -> bool,
    a: Seq<QueueView>,
    i: int,
)
    requires
        stable_sorted::<Queue>(a, listed_queues(v).filter(p)),
        0 <= i < a.len(),
    ensures
        a[i].queue_availability == "Available"@,
        exists|j: int|
            0 <= j < v.len() && (#[trigger] v[j]).queue_availability == "Available"@ && a[i]
                == with_display_description(v[j]),
{
    let avail = |q: QueueView| is_available(q);
    let shown = |q: QueueView| with_display_description(q);
    let l = listed_queues(v);
    let f = v.filter(avail);
    assert(l == f.map_values(shown));
    lemma_stable_sorted_member::<Queue>(a, l.filter(p), i);
    l.lemma_filter_contains_rev(p, a[i]);
    let m = choose|m: int| 0 <= m < l.len() && l[m] == a[i];
    assert(l[m] == with_display_description(f[m]));
    v.lemma_filter_pred(avail, m);
    assert(f.contains(f[m]));
    v.lemma_filter_contains_rev(avail, f[m]);
    let j = choose|j: int| 0 <= j < v.len() && v[j] == f[m];
    assert(v[j].queue_availability == "Available"@);
}

/// The lists that [`Queues::from`] makes hold only queues whose availability
/// is exactly `Available`: each listed queue is a given queue with that
/// availability, shown with its display description. A queue that reports
/// any other availability is in none of the lists.
pub proof fn lemma_queues_only_available(
    v: Seq<QueueView>,
    ranked: Seq<QueueView>,
    casual: Seq<QueueView>,
    versus_ai: Seq<QueueView>,
)
    requires
        stable_sorted::<Queue>(ranked, listed_queues(v).filter(in_ranked_list())),
        stable_sorted::<Queue>(casual, listed_queues(v).filter(in_casual_list())),
        stable_sorted::<Queue>(versus_ai, listed_queues(v).filter(in_versus_ai_list())),
    ensures
        forall|i: int|
            0 <= i < ranked.len() ==> (#[trigger] ranked[i]).queue_availability == "Available"@
                && exists|j: int|
                0 <= j < v.len() && (#[trigger] v[j]).queue_availability == "Available"@
                    && ranked[i] == with_display_description(v[j]),
        forall|i: int|
            0 <= i < casual.len() ==> (#[trigger] casual[i]).queue_availability == "Available"@
                && exists|j: int|
                0 <= j < v.len() && (#[trigger] v[j]).queue_availability == "Available"@
                    && casual[i] == with_display_description(v[j]),
        forall|i: int|
            0 <= i < versus_ai.len() ==> (#[trigger] versus_ai[i]).queue_availability
                == "Available"@ && exists|j: int|
                0 <= j < v.len() && (#[trigger] v[j]).queue_availability == "Available"@
                    && versus_ai[i] == with_display_description(v[j]),
{
    assert forall|i: int| 0 <= i < ranked.len() implies (#[trigger] ranked[i]).queue_availability
        == "Available"@ && exists|j: int|
        0 <= j < v.len() && (#[trigger] v[j]).queue_availability == "Available"@ && ranked[i]
            == with_display_description(v[j]) by {
        lemma_list_member_available(v, in_ranked_list(), ranked, i);
    }
    assert forall|i: int| 0 <= i < casual.len() implies (#[trigger] casual[i]).queue_availability
        == "Available"@ && exists|j: int|
        0 <= j < v.len() && (#[trigger] v[j]).queue_availability == "Available"@ && casual[i]
            == with_display_description(v[j]) by {
        lemma_list_member_available(v, in_casual_list(), casual, i);
    }
    assert forall|i: int| 0 <= i < versus_ai.len() implies (#[trigger] versus_ai[i]).queue_availability
        == "Available"@ && exists|j: int|
        0 <= j < v.len() && (#[trigger] v[j]).queue_availability == "Available"@ && versus_ai[i]
            == with_display_description(v[j]) by {
        lemma_list_member_available(v, in_versus_ai_list(), versus_ai, i);
    }
}

/// The queue lists that the queue picker shows.
#[derive(Clone)]
pub struct Queues {
    pub ranked: Vec<Queue>,
    pub casual: Vec<Queue>,
    pub versus_ai: Vec<Queue>,
}

impl Default for Queues {
    fn default() -> (r: Self)
        ensures
            r.ranked@.len() == 0,
            r.casual@.len() == 0,
            r.versus_ai@.len() == 0,
    {
        Queues { ranked: Vec::new(), casual: Vec::new(), versus_ai: Vec::new() }
    }
}

/// Replaces the queue's description with the one that is shown for it.
fn show_description(q: &mut Queue)
    ensures
        final(q)@ == with_display_description(old(q)@),
{
    if text_eq(q.gameMode.as_str(), "NEXUSBLITZ") {
        q.description = String::from_str("Nexus Blitz");
    } else if !text_eq(q.gameMode.as_str(), "CLASSIC") && !text_eq(q.gameMode.as_str(), "ARAM")
        && !text_starts_with(q.gameMode.as_str(), "TUTORIAL") {
        let shown = q.gameMode.clone().concat(": ").concat(q.description.as_str());
        q.description = shown;
    }
}

/// Whether the queue goes to the ranked list.
fn is_ranked_listing(q: &Queue) -> (r: bool)
    ensures
        r == in_ranked_list()(q@),
{
    q.isRanked && !text_contains(q.description.as_str(), "Clash")
}

/// Whether the queue goes to the versus-AI list.
fn is_versus_ai_listing(q: &Queue) -> (r: bool)
    ensures
        r == in_versus_ai_list()(q@),
{
    text_eq(q.category.as_str(), "VersusAi") || text_contains(q.description.as_str(), "Tutorial")
}

/// Whether the queue goes to the casual list.
fn is_casual_listing(q: &Queue) -> (r: bool)
    ensures
        r == in_casual_list()(q@),
{
    !q.isRanked && !text_eq(q.category.as_str(), "VersusAi") && !text_contains(
        q.description.as_str(),
        "Tutorial",
    )
}

/// The available queues of `queue_vec`, in order, with their shown
/// descriptions.
fn available_queues(queue_vec: Vec<Queue>) -> (r: Vec<Queue>)
    ensures
        views(r@) == listed_queues(views(queue_vec@)),
{
    let ghost orig = views(queue_vec@);
    let mut input = queue_vec;
    let mut kept: Vec<Queue> = Vec::new();
    let ghost mut taken: int = 0;
    assert(views(input@) =~= orig.skip(0));
    assert(orig.take(0) =~= Seq::<QueueView>::empty());
    assert(listed_queues(Seq::<QueueView>::empty()) =~= Seq::<QueueView>::empty()) by {
        reveal(Seq::filter);
    }
    assert(views(kept@) =~= Seq::<QueueView>::empty());
    while input.len() > 0
        invariant
            0 <= taken <= orig.len(),
            views(input@) == orig.skip(taken),
            views(kept@) == listed_queues(orig.take(taken)),
        decreases input.len(),
    {
        let ghost vin = input@;
        let mut q = input.remove(0);
        let ghost qv = q@;
        assert(views(vin) == orig.skip(taken));
        assert(views(vin).len() == vin.len());
        assert(orig.skip(taken)[0] == orig[taken]);
        assert(views(vin)[0] == vin[0]@);
        assert(views(input@) =~= orig.skip(taken + 1));
        let ghost before = views(kept@);
        let ghost avail = |w: QueueView| is_available(w);
        let ghost shown = |w: QueueView| with_display_description(w);
        proof {
            assert(orig.take(taken).push(qv) =~= orig.take(taken + 1));
            orig.take(taken).lemma_filter_push(qv, avail);
        }
        if text_eq(q.queueAvailability.as_str(), "Available") {
            show_description(&mut q);
            kept.push(q);
            proof {
                assert(orig.take(taken).filter(avail).push(qv).map_values(shown) =~= orig.take(
                    taken,
                ).filter(avail).map_values(shown).push(with_display_description(qv)));
                assert(views(kept@) =~= before.push(with_display_description(qv)));
            }
        }
        proof {
            taken = taken + 1;
        }
    }
    assert(orig.take(taken) =~= orig);
    kept
}

impl Queues {
    /// The queue lists for the client's queue list: of the available queues,
    /// each shown with its display description and sorted by it (queues of
    /// equal description in their given order), the ranked list holds the
    /// ranked queues other than Clash, the versus-AI list the versus-AI queues
    /// and the tutorials, and the casual list the rest that is not ranked.
    pub fn from(queue_vec: Vec<Queue>) -> (r: Queues)
        ensures
            stable_sorted::<Queue>(
                views(r.ranked@),
                listed_queues(views(queue_vec@)).filter(in_ranked_list()),
            ),
            stable_sorted::<Queue>(
                views(r.casual@),
                listed_queues(views(queue_vec@)).filter(in_casual_list()),
            ),
            stable_sorted::<Queue>(
                views(r.versus_ai@),
                listed_queues(views(queue_vec@)).filter(in_versus_ai_list()),
            ),
            forall|i: int|
                0 <= i < r.ranked@.len() ==> (#[trigger] r.ranked@[i]).queueAvailability@
                    == "Available"@,
            forall|i: int|
                0 <= i < r.casual@.len() ==> (#[trigger] r.casual@[i]).queueAvailability@
                    == "Available"@,
            forall|i: int|
                0 <= i < r.versus_ai@.len() ==> (#[trigger] r.versus_ai@[i]).queueAvailability@
                    == "Available"@,
    {
        let ghost input = views(queue_vec@);
        let listed = available_queues(queue_vec);
        let sorted = sort_by_description(listed);
        let ghost sv = views(sorted@);
        let mut ranked: Vec<Queue> = Vec::new();
        let mut casual: Vec<Queue> = Vec::new();
        let mut versus_ai: Vec<Queue> = Vec::new();
        let mut i: usize = 0;
        proof {
            reveal(Seq::filter);
        }
        assert(views(ranked@) =~= sv.take(0).filter(in_ranked_list()));
        assert(views(casual@) =~= sv.take(0).filter(in_casual_list()));
        assert(views(versus_ai@) =~= sv.take(0).filter(in_versus_ai_list()));
        while i < sorted.len()
            invariant
                i <= sorted@.len(),
                sv == views(sorted@),
                views(ranked@) == sv.take(i as int).filter(in_ranked_list()),
                views(casual@) == sv.take(i as int).filter(in_casual_list()),
                views(versus_ai@) == sv.take(i as int).filter(in_versus_ai_list()),
            decreases sorted.len() - i,
        {
            let q = &sorted[i];
            let ghost qv = q@;
            proof {
                assert(sv[i as int] == qv);
                assert(sv.take(i as int).push(qv) =~= sv.take(i + 1));
                sv.take(i as int).lemma_filter_push(qv, in_ranked_list());
                sv.take(i as int).lemma_filter_push(qv, in_casual_list());
                sv.take(i as int).lemma_filter_push(qv, in_versus_ai_list());
            }
            if is_ranked_listing(q) {
                ranked.push(q.clone());
                assert(views(ranked@) =~= sv.take(i as int).filter(in_ranked_list()).push(qv));
            }
            if is_versus_ai_listing(q) {
                versus_ai.push(q.clone());
                assert(views(versus_ai@) =~= sv.take(i as int).filter(in_versus_ai_list()).push(qv));
            }
            if is_casual_listing(q) {
                casual.push(q.clone());
                assert(views(casual@) =~= sv.take(i as int).filter(in_casual_list()).push(qv));
            }
            i = i + 1;
        }
        proof {
            assert(sv.take(i as int) =~= sv);
            let prepared = listed_queues(views(queue_vec@));
            lemma_stable_sorted_filter::<Queue>(sv, prepared, in_ranked_list());
            lemma_stable_sorted_filter::<Queue>(sv, prepared, in_casual_list());
            lemma_stable_sorted_filter::<Queue>(sv, prepared, in_versus_ai_list());
            lemma_queues_only_available(input, views(ranked@), views(casual@), views(versus_ai@));
            assert forall|i: int| 0 <= i < ranked@.len() implies (#[trigger] ranked@[i]).queueAvailability@
                == "Available"@ by {
                assert(views(ranked@)[i] == ranked@[i]@);
            }
            assert forall|i: int| 0 <= i < casual@.len() implies (#[trigger] casual@[i]).queueAvailability@
                == "Available"@ by {
                assert(views(casual@)[i] == casual@[i]@);
            }
            assert forall|i: int| 0 <= i < versus_ai@.len() implies (#[trigger] versus_ai@[i]).queueAvailability@
                == "Available"@ by {
                assert(views(versus_ai@)[i] == versus_ai@[i]@);
            }
        }
        Queues { ranked, casual, versus_ai }
    }
}

} // verus!
