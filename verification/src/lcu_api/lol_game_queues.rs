//! Game queue lists that keep only each queue's description.
use vstd::prelude::*;
use crate::sorting::{Described, sort_by_description, stable_sorted, views,
    lemma_stable_sorted_filter, lemma_stable_sorted_map, lemma_stable_sorted_member,
    lemma_stable_sorted_unique};
use crate::text::{has_infix, text_contains, text_eq};

verus! {

broadcast use vstd::seq_lib::group_seq_properties;

/// A queue as shown in a list: its description.
#[derive(Clone)]
pub struct Queue {
    pub description: String,
}

impl View for Queue {
    type V = Seq<char>;

    open spec fn view(&self) -> Seq<char> {
        self.description@
    }
}

impl Described for Queue {
    open spec fn description_of(v: Seq<char>) -> Seq<char> {
        v
    }

    fn description_text(&self) -> (s: &str) {
        self.description.as_str()
    }
}

/// A game queue as the client's queue list reports it: the parts of it that
/// decide where it is listed.
#[allow(non_snake_case)]
pub struct RawQueue {
    pub category: String,
    pub description: String,
    pub isRanked: bool,
    pub queueAvailability: String,
}

/// The content of a [`RawQueue`].
pub struct RawQueueView {
    pub category: Seq<char>,
    pub description: Seq<char>,
    pub is_ranked: bool,
    pub queue_availability: Seq<char>,
}

impl View for RawQueue {
    type V = RawQueueView;

    open spec fn view(&self) -> RawQueueView {
        RawQueueView {
            category: self.category@,
            description: self.description@,
            is_ranked: self.isRanked,
            queue_availability: self.queueAvailability@,
        }
    }
}

impl Clone for RawQueue {
    fn clone(&self) -> (r: Self)
        ensures
            r@ == self@,
    {
        RawQueue {
            category: self.category.clone(),
            description: self.description.clone(),
            isRanked: self.isRanked,
            queueAvailability: self.queueAvailability.clone(),
        }
    }
}

impl Described for RawQueue {
    open spec fn description_of(v: RawQueueView) -> Seq<char> {
        v.description
    }

    fn description_text(&self) -> (s: &str) {
        self.description.as_str()
    }
}

/// The queue can be joined now.
pub open spec fn is_available() -> spec_fn(RawQueueView) -> bool {
    |q: RawQueueView| q.queue_availability == "Available"@
}

/// Belongs to the ranked list: a ranked queue that is not Clash.
pub open spec fn in_ranked_list() -> spec_fn(RawQueueView) -> bool {
    |q: RawQueueView| q.is_ranked && !has_infix(q.description, "Clash"@)
}

/// Belongs to the versus-AI list: a versus-AI queue or a tutorial.
pub open spec fn in_versus_ai_list() -> spec_fn(RawQueueView) -> bool {
    |q: RawQueueView| q.category == "VersusAi"@ || has_infix(q.description, "Tutorial"@)
}

/// Belongs to the casual list: neither ranked, versus-AI nor a tutorial.
pub open spec fn in_casual_list() -> spec_fn(RawQueueView) -> bool {
    |q: RawQueueView|
        !q.is_ranked && q.category != "VersusAi"@ && !has_infix(q.description, "Tutorial"@)
}

/// What a listed queue keeps of a reported one.
pub open spec fn queue_data() -> spec_fn(RawQueueView) -> Seq<char> {
    |q: RawQueueView| q.description
}

impl RawQueue {
    /// The listed queue for this reported one.
    pub fn to_data(self) -> (r: Queue)
        ensures
            r@ == queue_data()(self@),
    {
        Queue { description: self.description }
    }
}

/// `d` is the description of one of the queues `v` whose availability is
/// exactly `Available`.
pub open spec fn from_available_queue(v: Seq<RawQueueView>, d: Seq<char>) -> bool {
    exists|j: int|
        0 <= j < v.len() && (#[trigger] v[j]).queue_availability == "Available"@ && v[j].description
            == d
}

/// Every description in a list made by [`Queues::from`] is that of one of
/// the given queues whose availability is exactly `Available` (for a list
/// test `p`).
proof fn lemma_list_member_available(
    v: Seq<RawQueueView>,
    p: spec_fn(RawQueueView) -> bool,
    a: Seq<Seq<char>>,
    i: int,
)
    requires
        stable_sorted::<Queue>(a, v.filter(is_available()).filter(p).map_values(queue_data())),
        0 <= i < a.len(),
    ensures
        from_available_queue(v, a[i]),
        exists|j: int|
            0 <= j < v.len() && (#[trigger] v[j]).queue_availability == "Available"@
                && v[j].description == a[i] && p(v[j]),
{
    let f = v.filter(is_available());
    let fp = f.filter(p);
    let l = fp.map_values(queue_data());
    lemma_stable_sorted_member::<Queue>(a, l, i);
    let m = choose|m: int| 0 <= m < l.len() && l[m] == a[i];
    assert(l[m] == fp[m].description);
    assert(fp.contains(fp[m]));
    f.lemma_filter_contains_rev(p, fp[m]);
    let n = choose|n: int| 0 <= n < f.len() && f[n] == fp[m];
    v.lemma_filter_pred(is_available(), n);
    assert(f.contains(f[n]));
    v.lemma_filter_contains_rev(is_available(), f[n]);
    let j = choose|j: int| 0 <= j < v.len() && v[j] == f[n];
    assert(v[j].queue_availability == "Available"@);
    assert(v[j].description == a[i]);
    f.lemma_filter_pred(p, m);
    assert(p(v[j]));
}

/// Every description of a list made by [`Queues::from`] is that of a given
/// queue whose availability is exactly `Available` (for a list test `p`).
proof fn lemma_list_only_available(
    v: Seq<RawQueueView>,
    p: spec_fn(RawQueueView) -> bool,
    a: Seq<Seq<char>>,
)
    requires
        stable_sorted::<Queue>(a, v.filter(is_available()).filter(p).map_values(queue_data())),
    ensures
        forall|i: int| 0 <= i < a.len() ==> from_available_queue(v, #[trigger] a[i]),
{
    assert forall|i: int| 0 <= i < a.len() implies from_available_queue(v, #[trigger] a[i]) by {
        lemma_list_member_available(v, p, a, i);
    }
}

/// The lists that [`Queues::from`] makes list only queues whose availability
/// is exactly `Available`: every listed description is that of a given queue
/// with that availability.
pub proof fn lemma_queues_only_available(
    v: Seq<RawQueueView>,
    ranked: Seq<Seq<char>>,
    casual: Seq<Seq<char>>,
    versus_ai: Seq<Seq<char>>,
)
    requires
        stable_sorted::<Queue>(ranked, v.filter(is_available()).filter(in_ranked_list()).map_values(queue_data())),
        stable_sorted::<Queue>(casual, v.filter(is_available()).filter(in_casual_list()).map_values(queue_data())),
        stable_sorted::<Queue>(versus_ai, v.filter(is_available()).filter(in_versus_ai_list()).map_values(queue_data())),
    ensures
        forall|i: int| 0 <= i < ranked.len() ==> from_available_queue(v, #[trigger] ranked[i]),
        forall|i: int| 0 <= i < casual.len() ==> from_available_queue(v, #[trigger] casual[i]),
        forall|i: int| 0 <= i < versus_ai.len() ==> from_available_queue(v, #[trigger] versus_ai[i]),
{
    lemma_list_only_available(v, in_ranked_list(), ranked);
    lemma_list_only_available(v, in_casual_list(), casual);
    lemma_list_only_available(v, in_versus_ai_list(), versus_ai);
}

/// `d` is the description of an available ranked queue of `v` without
/// `Clash` in its description.
pub open spec fn ranked_source(v: Seq<RawQueueView>, d: Seq<char>) -> bool {
    exists|j: int|
        0 <= j < v.len() && (#[trigger] v[j]).queue_availability == "Available"@ && v[j].description
            == d && v[j].is_ranked && !has_infix(v[j].description, "Clash"@)
}

/// `d` is the description of an available queue of `v` of category
/// `VersusAi` or with `Tutorial` in its description.
pub open spec fn versus_ai_source(v: Seq<RawQueueView>, d: Seq<char>) -> bool {
    exists|j: int|
        0 <= j < v.len() && (#[trigger] v[j]).queue_availability == "Available"@ && v[j].description
            == d && (v[j].category == "VersusAi"@ || has_infix(v[j].description, "Tutorial"@))
}

/// `d` is the description of an available queue of `v` that is not ranked,
/// not of category `VersusAi` and without `Tutorial` in its description.
pub open spec fn casual_source(v: Seq<RawQueueView>, d: Seq<char>) -> bool {
    exists|j: int|
        0 <= j < v.len() && (#[trigger] v[j]).queue_availability == "Available"@ && v[j].description
            == d && !v[j].is_ranked && v[j].category != "VersusAi"@ && !has_infix(
            v[j].description,
            "Tutorial"@,
        )
}

/// What each list that [`Queues::from`] makes holds, by the reported
/// queues' own fields: every ranked description is that of an available
/// ranked queue without `Clash` in its description, every versus-AI one that
/// of an available queue of category `VersusAi` or with `Tutorial` in its
/// description, and every casual one that of an available queue that is not
/// ranked, not of category `VersusAi` and without `Tutorial`.
pub proof fn lemma_queue_lists_by_kind(
    v: Seq<RawQueueView>,
    ranked: Seq<Seq<char>>,
    casual: Seq<Seq<char>>,
    versus_ai: Seq<Seq<char>>,
)
    requires
        stable_sorted::<Queue>(ranked, v.filter(is_available()).filter(in_ranked_list()).map_values(queue_data())),
        stable_sorted::<Queue>(casual, v.filter(is_available()).filter(in_casual_list()).map_values(queue_data())),
        stable_sorted::<Queue>(versus_ai, v.filter(is_available()).filter(in_versus_ai_list()).map_values(queue_data())),
    ensures
        forall|i: int| 0 <= i < ranked.len() ==> ranked_source(v, #[trigger] ranked[i]),
        forall|i: int| 0 <= i < versus_ai.len() ==> versus_ai_source(v, #[trigger] versus_ai[i]),
        forall|i: int| 0 <= i < casual.len() ==> casual_source(v, #[trigger] casual[i]),
{
    assert forall|i: int| 0 <= i < ranked.len() implies ranked_source(v, #[trigger] ranked[i]) by {
        lemma_list_member_available(v, in_ranked_list(), ranked, i);
    }
    assert forall|i: int| 0 <= i < versus_ai.len() implies versus_ai_source(
        v,
        #[trigger] versus_ai[i],
    ) by {
        lemma_list_member_available(v, in_versus_ai_list(), versus_ai, i);
    }
    assert forall|i: int| 0 <= i < casual.len() implies casual_source(v, #[trigger] casual[i]) by {
        lemma_list_member_available(v, in_casual_list(), casual, i);
    }
}

/// A list made from `v` with a queue `q0` whose availability is not
/// `Available` put in at place `i` is the one made from `v`.
proof fn lemma_list_ignores_unavailable(
    v: Seq<RawQueueView>,
    q0: RawQueueView,
    i: int,
    p: spec_fn(RawQueueView) -> bool,
    a: Seq<Seq<char>>,
    b: Seq<Seq<char>>,
)
    requires
        q0.queue_availability != "Available"@,
        0 <= i <= v.len(),
        stable_sorted::<Queue>(a, v.filter(is_available()).filter(p).map_values(queue_data())),
        stable_sorted::<Queue>(
            b,
            v.insert(i, q0).filter(is_available()).filter(p).map_values(queue_data()),
        ),
    ensures
        a == b,
{
    let avail = is_available();
    let front = v.take(i);
    let back = v.skip(i);
    assert(v.insert(i, q0) =~= front + seq![q0] + back);
    assert(v =~= front + back);
    Seq::filter_distributes_over_add(front + seq![q0], back, avail);
    Seq::filter_distributes_over_add(front, seq![q0], avail);
    Seq::filter_distributes_over_add(front, back, avail);
    front.lemma_filter_push(q0, avail);
    assert(front + seq![q0] =~= front.push(q0));
    assert(v.insert(i, q0).filter(avail) == v.filter(avail));
    lemma_stable_sorted_unique::<Queue>(
        a,
        b,
        v.filter(is_available()).filter(p).map_values(queue_data()),
        v.insert(i, q0).filter(is_available()).filter(p).map_values(queue_data()),
    );
}

/// The lists that [`Queues::from`] makes ignore queues whose availability is
/// not `Available`: with such a queue put in anywhere, the three lists are
/// the same.
pub proof fn lemma_queues_ignore_unavailable(
    v: Seq<RawQueueView>,
    q0: RawQueueView,
    i: int,
    ranked: Seq<Seq<char>>,
    casual: Seq<Seq<char>>,
    versus_ai: Seq<Seq<char>>,
    ranked2: Seq<Seq<char>>,
    casual2: Seq<Seq<char>>,
    versus_ai2: Seq<Seq<char>>,
)
    requires
        q0.queue_availability != "Available"@,
        0 <= i <= v.len(),
        stable_sorted::<Queue>(ranked, v.filter(is_available()).filter(in_ranked_list()).map_values(queue_data())),
        stable_sorted::<Queue>(casual, v.filter(is_available()).filter(in_casual_list()).map_values(queue_data())),
        stable_sorted::<Queue>(versus_ai, v.filter(is_available()).filter(in_versus_ai_list()).map_values(queue_data())),
        stable_sorted::<Queue>(ranked2, v.insert(i, q0).filter(is_available()).filter(in_ranked_list()).map_values(queue_data())),
        stable_sorted::<Queue>(casual2, v.insert(i, q0).filter(is_available()).filter(in_casual_list()).map_values(queue_data())),
        stable_sorted::<Queue>(versus_ai2, v.insert(i, q0).filter(is_available()).filter(in_versus_ai_list()).map_values(queue_data())),
    ensures
        ranked == ranked2,
        casual == casual2,
        versus_ai == versus_ai2,
{
    lemma_list_ignores_unavailable(v, q0, i, in_ranked_list(), ranked, ranked2);
    lemma_list_ignores_unavailable(v, q0, i, in_casual_list(), casual, casual2);
    lemma_list_ignores_unavailable(v, q0, i, in_versus_ai_list(), versus_ai, versus_ai2);
}

/// The queue lists that the queue picker shows.
#[derive(Clone)]
pub struct Queues {
    pub ranked: Vec<Queue>,
    pub casual: Vec<Queue>,
    pub versus_ai: Vec<Queue>,
}

impl Default for Queues {
    fn default() -> (r: Self)
        ensures
            r.ranked@.len() == 0,
            r.casual@.len() == 0,
            r.versus_ai@.len() == 0,
    {
        Queues { ranked: Vec::new(), casual: Vec::new(), versus_ai: Vec::new() }
    }
}

/// The available queues of `queue_vec`, in order.
fn available_queues(queue_vec: Vec<RawQueue>) -> (r: Vec<RawQueue>)
    ensures
        views(r@) == views(queue_vec@).filter(is_available()),
{
    let ghost orig = views(queue_vec@);
    let mut input = queue_vec;
    let mut kept: Vec<RawQueue> = Vec::new();
    let ghost mut taken: int = 0;
    assert(views(input@) =~= orig.skip(0));
    assert(orig.take(0) =~= Seq::<RawQueueView>::empty());
    assert(orig.take(0).filter(is_available()) =~= Seq::<RawQueueView>::empty()) by {
        reveal(Seq::filter);
    }
    assert(views(kept@) =~= Seq::<RawQueueView>::empty());
    while input.len() > 0
        invariant
            0 <= taken <= orig.len(),
            views(input@) == orig.skip(taken),
            views(kept@) == orig.take(taken).filter(is_available()),
        decreases input.len(),
    {
        let ghost vin = input@;
        let q = input.remove(0);
        let ghost qv = q@;
        assert(views(vin) == orig.skip(taken));
        assert(views(vin).len() == vin.len());
        assert(orig.skip(taken)[0] == orig[taken]);
        assert(views(vin)[0] == vin[0]@);
        assert(views(input@) =~= orig.skip(taken + 1));
        let ghost before = views(kept@);
        proof {
            assert(orig.take(taken).push(qv) =~= orig.take(taken + 1));
            orig.take(taken).lemma_filter_push(qv, is_available());
        }
        if text_eq(q.queueAvailability.as_str(), "Available") {
            kept.push(q);
            assert(views(kept@) =~= before.push(qv));
        }
        proof {
            taken = taken + 1;
        }
    }
    assert(orig.take(taken) =~= orig);
    kept
}

impl Queues {
    /// The queue lists for the client's queue list: of the available queues,
    /// sorted by description (queues of equal description in their given
    /// order), the ranked list holds the ranked queues other than Clash, the
    /// versus-AI list the versus-AI queues and the tutorials, and the casual
    /// list the rest that is not ranked; each keeps only the description.
    pub fn from(queue_vec: Vec<RawQueue>) -> (r: Queues)
        ensures
            stable_sorted::<Queue>(
                views(r.ranked@),
                views(queue_vec@).filter(is_available()).filter(in_ranked_list()).map_values(
                    queue_data(),
                ),
            ),
            stable_sorted::<Queue>(
                views(r.casual@),
                views(queue_vec@).filter(is_available()).filter(in_casual_list()).map_values(
                    queue_data(),
                ),
            ),
            stable_sorted::<Queue>(
                views(r.versus_ai@),
                views(queue_vec@).filter(is_available()).filter(in_versus_ai_list()).map_values(
                    queue_data(),
                ),
            ),
            forall|i: int|
                0 <= i < r.ranked@.len() ==> from_available_queue(
                    views(queue_vec@),
                    (#[trigger] r.ranked@[i]).description@,
                ),
            forall|i: int|
                0 <= i < r.casual@.len() ==> from_available_queue(
                    views(queue_vec@),
                    (#[trigger] r.casual@[i]).description@,
                ),
            forall|i: int|
                0 <= i < r.versus_ai@.len() ==> from_available_queue(
                    views(queue_vec@),
                    (#[trigger] r.versus_ai@[i]).description@,
                ),
            forall|i: int|
                0 <= i < r.ranked@.len() ==> ranked_source(
                    views(queue_vec@),
                    (#[trigger] r.ranked@[i]).description@,
                ),
            forall|i: int|
                0 <= i < r.casual@.len() ==> casual_source(
                    views(queue_vec@),
                    (#[trigger] r.casual@[i]).description@,
                ),
            forall|i: int|
                0 <= i < r.versus_ai@.len() ==> versus_ai_source(
                    views(queue_vec@),
                    (#[trigger] r.versus_ai@[i]).description@,
                ),
    {
        let ghost input = views(queue_vec@);
        let available = available_queues(queue_vec);
        let sorted = sort_by_description(available);
        let ghost sv = views(sorted@);
        let mut ranked: Vec<Queue> = Vec::new();
        let mut casual: Vec<Queue> = Vec::new();
        let mut versus_ai: Vec<Queue> = Vec::new();
        let mut i: usize = 0;
        proof {
            reveal(Seq::filter);
        }
        assert(views(ranked@) =~= sv.take(0).filter(in_ranked_list()).map_values(queue_data()));
        assert(views(casual@) =~= sv.take(0).filter(in_casual_list()).map_values(queue_data()));
        assert(views(versus_ai@) =~= sv.take(0).filter(in_versus_ai_list()).map_values(
            queue_data(),
        ));
        while i < sorted.len()
            invariant
                i <= sorted@.len(),
                sv == views(sorted@),
                views(ranked@) == sv.take(i as int).filter(in_ranked_list()).map_values(
                    queue_data(),
                ),
                views(casual@) == sv.take(i as int).filter(in_casual_list()).map_values(
                    queue_data(),
                ),
                views(versus_ai@) == sv.take(i as int).filter(in_versus_ai_list()).map_values(
                    queue_data(),
                ),
            decreases sorted.len() - i,
        {
            let q = &sorted[i];
            let ghost qv = q@;
            proof {
                assert(sv[i as int] == qv);
                assert(sv.take(i as int).push(qv) =~= sv.take(i + 1));
                sv.take(i as int).lemma_filter_push(qv, in_ranked_list());
                sv.take(i as int).lemma_filter_push(qv, in_casual_list());
                sv.take(i as int).lemma_filter_push(qv, in_versus_ai_list());
            }
            if q.isRanked && !text_contains(q.description.as_str(), "Clash") {
                let ghost before = views(ranked@);
                let listed = q.clone().to_data();
                assert(listed@ == queue_data()(qv));
                ranked.push(listed);
                assert(views(ranked@) =~= before.push(queue_data()(qv)));
                assert(sv.take(i as int).filter(in_ranked_list()).push(qv).map_values(queue_data())
                    =~= sv.take(i as int).filter(in_ranked_list()).map_values(queue_data()).push(
                    queue_data()(qv),
                ));
            }
            if text_eq(q.category.as_str(), "VersusAi") || text_contains(
                q.description.as_str(),
                "Tutorial",
            ) {
                let ghost before = views(versus_ai@);
                let listed = q.clone().to_data();
                assert(listed@ == queue_data()(qv));
                versus_ai.push(listed);
                assert(views(versus_ai@) =~= before.push(queue_data()(qv)));
                assert(sv.take(i as int).filter(in_versus_ai_list()).push(qv).map_values(queue_data())
                    =~= sv.take(i as int).filter(in_versus_ai_list()).map_values(queue_data()).push(
                    queue_data()(qv),
                ));
            }
            if !q.isRanked && !text_eq(q.category.as_str(), "VersusAi") && !text_contains(
                q.description.as_str(),
                "Tutorial",
            ) {
                let ghost before = views(casual@);
                let listed = q.clone().to_data();
                assert(listed@ == queue_data()(qv));
                casual.push(listed);
                assert(views(casual@) =~= before.push(queue_data()(qv)));
                assert(sv.take(i as int).filter(in_casual_list()).push(qv).map_values(queue_data())
                    =~= sv.take(i as int).filter(in_casual_list()).map_values(queue_data()).push(
                    queue_data()(qv),
                ));
            }
            i = i + 1;
        }
        proof {
            assert(sv.take(i as int) =~= sv);
            let avail = views(queue_vec@).filter(is_available());
            assert forall|w: RawQueueView| #[trigger]
                crate::sorting::description_key::<Queue>(queue_data()(w))
                    == crate::sorting::description_key::<RawQueue>(w) by {}
            lemma_stable_sorted_filter::<RawQueue>(sv, avail, in_ranked_list());
            lemma_stable_sorted_filter::<RawQueue>(sv, avail, in_casual_list());
            lemma_stable_sorted_filter::<RawQueue>(sv, avail, in_versus_ai_list());
            lemma_stable_sorted_map::<RawQueue, Queue>(
                sv.filter(in_ranked_list()),
                avail.filter(in_ranked_list()),
                queue_data(),
            );
            lemma_stable_sorted_map::<RawQueue, Queue>(
                sv.filter(in_casual_list()),
                avail.filter(in_casual_list()),
                queue_data(),
            );
            lemma_stable_sorted_map::<RawQueue, Queue>(
                sv.filter(in_versus_ai_list()),
                avail.filter(in_versus_ai_list()),
                queue_data(),
            );
            lemma_queues_only_available(input, views(ranked@), views(casual@), views(versus_ai@));
            lemma_queue_lists_by_kind(input, views(ranked@), views(casual@), views(versus_ai@));
            assert forall|i: int| 0 <= i < ranked@.len() implies from_available_queue(
                input,
                (#[trigger] ranked@[i]).description@,
            ) && ranked_source(input, ranked@[i].description@) by {
                assert(views(ranked@)[i] == ranked@[i]@);
            }
            assert forall|i: int| 0 <= i < casual@.len() implies from_available_queue(
                input,
                (#[trigger] casual@[i]).description@,
            ) && casual_source(input, casual@[i].description@) by {
                assert(views(casual@)[i] == casual@[i]@);
            }
            assert forall|i: int| 0 <= i < versus_ai@.len() implies from_available_queue(
                input,
                (#[trigger] versus_ai@[i]).description@,
            ) && versus_ai_source(input, versus_ai@[i].description@) by {
                assert(views(versus_ai@)[i] == versus_ai@[i]@);
            }
        }
        Queues { ranked, casual, versus_ai }
    }
}

} // verus!
