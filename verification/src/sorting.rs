//! Stable ordering of records by their description text, in the byte order
//! that `String` compares by, with the facts about filtering and mapping
//! that the queue lists rely on.
use vstd::prelude::*;
use crate::text::{bytes_lt, text_bytes, text_lt, lemma_bytes_lt_asymmetric,
    lemma_bytes_lt_irreflexive, lemma_bytes_lt_total, lemma_bytes_lt_transitive};

verus! {

broadcast use vstd::seq_lib::group_seq_properties;

/// A record that carries a description, by which lists of it are ordered.
pub trait Described: View + Sized {
    /// The description held in a record's view.
    spec fn description_of(v: Self::V) -> Seq<char>;

    /// The record's description.
    fn description_text(&self) -> (s: &str)
        ensures
            s@ == Self::description_of(self@),
    ;
}

/// The bytes by which a record is ordered.
pub open spec fn description_key<T: Described>(v: T::V) -> Seq<u8> {
    text_bytes(T::description_of(v))
}

/// The test "this record's key is `k`".
pub open spec fn has_key<T: Described>(k: Seq<u8>) -> spec_fn(T::V) -> bool {
    |w: T::V| description_key::<T>(w) == k
}

/// The records of `s` whose key is `k`, in their order in `s`.
pub open spec fn key_group<T: Described>(s: Seq<T::V>, k: Seq<u8>) -> Seq<T::V> {
    s.filter(has_key::<T>(k))
}

/// No record of `s` has a key below that of a record before it.
pub open spec fn sorted_by_description<T: Described>(s: Seq<T::V>) -> bool {
    forall|i: int, j: int|
        0 <= i < j < s.len() ==> !bytes_lt(
            #[trigger] description_key::<T>(s[j]),
            #[trigger] description_key::<T>(s[i]),
        )
}

/// `out` is `inp` sorted by description, with records of equal description
/// kept in the order they had in `inp`.
pub open spec fn stable_sorted<T: Described>(out: Seq<T::V>, inp: Seq<T::V>) -> bool {
    &&& sorted_by_description::<T>(out)
    &&& forall|k: Seq<u8>| #[trigger] key_group::<T>(out, k) == key_group::<T>(inp, k)
}

/// The views of the elements of `s`, in order.
pub open spec fn views<T: View>(s: Seq<T>) -> Seq<T::V> {
    s.map_values(|x: T| x@)
}

/// Filtering by two tests gives the same list in either order.
pub proof fn lemma_filter_commute<A>(s: Seq<A>, p: spec_fn(A) -> bool, q: spec_fn(A) -> bool)
    ensures
        s.filter(p).filter(q) == s.filter(q).filter(p),
    decreases s.len(),
{
    if s.len() > 0 {
        let t = s.drop_last();
        let x = s.last();
        lemma_filter_commute(t, p, q);
        assert(t.push(x) =~= s);
        t.lemma_filter_push(x, p);
        t.lemma_filter_push(x, q);
        t.filter(p).lemma_filter_push(x, q);
        t.filter(q).lemma_filter_push(x, p);
    } else {
        assert(s.filter(p) =~= s) by {
            reveal(Seq::filter);
        }
        assert(s.filter(q) =~= s) by {
            reveal(Seq::filter);
        }
    }
}

/// Mapping then filtering by `p` is filtering by `q` then mapping, where `q`
/// is `p` after `f`.
pub proof fn lemma_filter_map<A, B>(
    s: Seq<A>,
    f: spec_fn(A) -> B,
    p: spec_fn(B) -> bool,
    q: spec_fn(A) -> bool,
)
    requires
        forall|a: A| #[trigger] q(a) == p(f(a)),
    ensures
        s.map_values(f).filter(p) == s.filter(q).map_values(f),
    decreases s.len(),
{
    if s.len() > 0 {
        let t = s.drop_last();
        let x = s.last();
        lemma_filter_map(t, f, p, q);
        assert(t.push(x) =~= s);
        assert(t.push(x).map_values(f) =~= t.map_values(f).push(f(x)));
        t.map_values(f).lemma_filter_push(f(x), p);
        t.lemma_filter_push(x, q);
        assert(q(x) == p(f(x)));
        assert(t.filter(q).push(x).map_values(f) =~= t.filter(q).map_values(f).push(f(x)));
    } else {
        assert(s.map_values(f).filter(p) =~= Seq::<B>::empty()) by {
            reveal(Seq::filter);
        }
        assert(s.filter(q) =~= Seq::<A>::empty()) by {
            reveal(Seq::filter);
        }
    }
}

/// A group is empty when no record has its key.
proof fn lemma_key_group_empty<T: Described>(s: Seq<T::V>, k: Seq<u8>)
    requires
        forall|i: int| 0 <= i < s.len() ==> description_key::<T>(#[trigger] s[i]) != k,
    ensures
        key_group::<T>(s, k) == Seq::<T::V>::empty(),
    decreases s.len(),
{
    reveal(Seq::filter);
    if s.len() > 0 {
        lemma_key_group_empty::<T>(s.drop_last(), k);
        assert(description_key::<T>(s[s.len() - 1]) != k);
    } else {
        assert(key_group::<T>(s, k) =~= Seq::<T::V>::empty());
    }
}

/// Keeping part of a sorted list keeps it sorted.
pub proof fn lemma_filter_sorted<T: Described>(s: Seq<T::V>, p: spec_fn(T::V) -> bool)
    requires
        sorted_by_description::<T>(s),
    ensures
        sorted_by_description::<T>(s.filter(p)),
    decreases s.len(),
{
    reveal(Seq::filter);
    if s.len() > 0 {
        let t = s.drop_last();
        let x = s.last();
        assert(sorted_by_description::<T>(t)) by {
            assert forall|i: int, j: int| 0 <= i < j < t.len() implies !bytes_lt(
                #[trigger] description_key::<T>(t[j]),
                #[trigger] description_key::<T>(t[i]),
            ) by {
                assert(t[i] == s[i] && t[j] == s[j]);
            }
        }
        lemma_filter_sorted::<T>(t, p);
        let ft = t.filter(p);
        if p(x) {
            let fs = ft.push(x);
            assert forall|i: int, j: int| 0 <= i < j < fs.len() implies !bytes_lt(
                #[trigger] description_key::<T>(fs[j]),
                #[trigger] description_key::<T>(fs[i]),
            ) by {
                if j == fs.len() - 1 {
                    assert(fs[i] == ft[i]);
                    assert(ft.contains(ft[i]));
                    t.lemma_filter_contains_rev(p, ft[i]);
                    let m = choose|m: int| 0 <= m < t.len() && t[m] == ft[i];
                    assert(s[m] == ft[i]);
                    assert(s[s.len() - 1] == x);
                    assert(!bytes_lt(description_key::<T>(s[s.len() - 1]), description_key::<T>(s[m])));
                } else {
                    assert(fs[i] == ft[i] && fs[j] == ft[j]);
                }
            }
        }
    }
}

/// Keeping the records that pass a test, in a stable sort of `inp`, gives a
/// stable sort of the records of `inp` that pass it.
pub proof fn lemma_stable_sorted_filter<T: Described>(
    out: Seq<T::V>,
    inp: Seq<T::V>,
    p: spec_fn(T::V) -> bool,
)
    requires
        stable_sorted::<T>(out, inp),
    ensures
        stable_sorted::<T>(out.filter(p), inp.filter(p)),
{
    lemma_filter_sorted::<T>(out, p);
    assert forall|k: Seq<u8>| #[trigger] key_group::<T>(out.filter(p), k) == key_group::<T>(
        inp.filter(p),
        k,
    ) by {
        lemma_filter_commute(out, p, has_key::<T>(k));
        lemma_filter_commute(inp, p, has_key::<T>(k));
        assert(key_group::<T>(out, k) == key_group::<T>(inp, k));
    }
}

/// Mapping a stable sort by a function that keeps each record's key gives a
/// stable sort of the mapped records.
pub proof fn lemma_stable_sorted_map<T: Described, U: Described>(
    out: Seq<T::V>,
    inp: Seq<T::V>,
    f: spec_fn(T::V) -> U::V,
)
    requires
        stable_sorted::<T>(out, inp),
        forall|w: T::V| #[trigger] description_key::<U>(f(w)) == description_key::<T>(w),
    ensures
        stable_sorted::<U>(out.map_values(f), inp.map_values(f)),
{
    let mo = out.map_values(f);
    assert forall|i: int, j: int| 0 <= i < j < mo.len() implies !bytes_lt(
        #[trigger] description_key::<U>(mo[j]),
        #[trigger] description_key::<U>(mo[i]),
    ) by {
        assert(description_key::<U>(f(out[j])) == description_key::<T>(out[j]));
        assert(description_key::<U>(f(out[i])) == description_key::<T>(out[i]));
    }
    assert forall|k: Seq<u8>| #[trigger] key_group::<U>(out.map_values(f), k) == key_group::<U>(
        inp.map_values(f),
        k,
    ) by {
        assert forall|w: T::V| #[trigger] has_key::<T>(k)(w) == has_key::<U>(k)(f(w)) by {
            assert(description_key::<U>(f(w)) == description_key::<T>(w));
        }
        lemma_filter_map(out, f, has_key::<U>(k), has_key::<T>(k));
        lemma_filter_map(inp, f, has_key::<U>(k), has_key::<T>(k));
        assert(key_group::<T>(out, k) == key_group::<T>(inp, k));
    }
}

/// Every record of a stable sort comes from its input.
pub proof fn lemma_stable_sorted_member<T: Described>(out: Seq<T::V>, inp: Seq<T::V>, i: int)
    requires
        stable_sorted::<T>(out, inp),
        0 <= i < out.len(),
    ensures
        inp.contains(out[i]),
{
    let k = description_key::<T>(out[i]);
    out.lemma_filter_contains(has_key::<T>(k), i);
    assert(key_group::<T>(out, k) == key_group::<T>(inp, k));
    inp.lemma_filter_contains_rev(has_key::<T>(k), out[i]);
}

/// Every record of the input of a stable sort is in its output.
pub proof fn lemma_stable_sorted_covers<T: Described>(out: Seq<T::V>, inp: Seq<T::V>, i: int)
    requires
        stable_sorted::<T>(out, inp),
        0 <= i < inp.len(),
    ensures
        out.contains(inp[i]),
{
    let k = description_key::<T>(inp[i]);
    inp.lemma_filter_contains(has_key::<T>(k), i);
    assert(key_group::<T>(out, k) == key_group::<T>(inp, k));
    out.lemma_filter_contains_rev(has_key::<T>(k), inp[i]);
}

/// A record that a filter kept passes the filter's test.
pub proof fn lemma_filter_member<A>(s: Seq<A>, p: spec_fn(A) -> bool, x: A)
    requires
        s.filter(p).contains(x),
    ensures
        p(x),
{
    let j = choose|j: int| 0 <= j < s.filter(p).len() && s.filter(p)[j] == x;
    s.lemma_filter_pred(p, j);
}

/// A record of `s` has key `k` when the group of `k` is not empty.
proof fn lemma_group_member<T: Described>(s: Seq<T::V>, k: Seq<u8>) -> (m: int)
    requires
        key_group::<T>(s, k).len() > 0,
    ensures
        0 <= m < s.len(),
        description_key::<T>(s[m]) == k,
{
    let g = key_group::<T>(s, k);
    s.lemma_filter_pred(has_key::<T>(k), 0);
    assert(g.contains(g[0]));
    s.lemma_filter_contains_rev(has_key::<T>(k), g[0]);
    choose|m: int| 0 <= m < s.len() && s[m] == g[0]
}

/// A sorted list is fixed by its groups: two sorted lists with the same
/// records of each key, in the same order, are equal.
pub proof fn lemma_sorted_groups_determine<T: Described>(a: Seq<T::V>, b: Seq<T::V>)
    requires
        sorted_by_description::<T>(a),
        sorted_by_description::<T>(b),
        forall|k: Seq<u8>| #[trigger] key_group::<T>(a, k) == key_group::<T>(b, k),
    ensures
        a == b,
    decreases a.len() + b.len(),
{
    if a.len() == 0 || b.len() == 0 {
        if a.len() != 0 || b.len() != 0 {
            let (full, empty) = if a.len() != 0 {
                (a, b)
            } else {
                (b, a)
            };
            let k = description_key::<T>(full[0]);
            full.lemma_filter_contains(has_key::<T>(k), 0);
            assert(key_group::<T>(a, k) == key_group::<T>(b, k));
            assert(key_group::<T>(empty, k).len() == 0) by {
                reveal(Seq::filter);
            }
        }
        assert(a =~= b);
    } else {
        let x = a.last();
        let y = b.last();
        let kx = description_key::<T>(x);
        let ky = description_key::<T>(y);
        let at = a.drop_last();
        let bt = b.drop_last();
        assert(at.push(x) =~= a);
        assert(bt.push(y) =~= b);
        if kx != ky {
            at.lemma_filter_push(x, has_key::<T>(kx));
            bt.lemma_filter_push(y, has_key::<T>(kx));
            assert(key_group::<T>(a, kx) == key_group::<T>(b, kx));
            let m = lemma_group_member::<T>(bt, kx);
            assert(b[m] == bt[m]);
            assert(b[b.len() - 1] == y);
            assert(!bytes_lt(description_key::<T>(b[b.len() - 1]), description_key::<T>(b[m])));
            at.lemma_filter_push(x, has_key::<T>(ky));
            bt.lemma_filter_push(y, has_key::<T>(ky));
            assert(key_group::<T>(a, ky) == key_group::<T>(b, ky));
            let n = lemma_group_member::<T>(at, ky);
            assert(a[n] == at[n]);
            assert(a[a.len() - 1] == x);
            assert(!bytes_lt(description_key::<T>(a[a.len() - 1]), description_key::<T>(a[n])));
            lemma_bytes_lt_total(kx, ky);
            assert(false);
        }
        assert forall|k: Seq<u8>| #[trigger] key_group::<T>(at, k) == key_group::<T>(bt, k) by {
            at.lemma_filter_push(x, has_key::<T>(k));
            bt.lemma_filter_push(y, has_key::<T>(k));
            assert(key_group::<T>(a, k) == key_group::<T>(b, k));
            if k == kx {
                let ga = key_group::<T>(at, k);
                let gb = key_group::<T>(bt, k);
                assert(ga.push(x).drop_last() =~= ga);
                assert(gb.push(y).drop_last() =~= gb);
            }
        }
        at.lemma_filter_push(x, has_key::<T>(kx));
        bt.lemma_filter_push(y, has_key::<T>(kx));
        assert(key_group::<T>(a, kx) == key_group::<T>(b, kx));
        assert(key_group::<T>(a, kx).last() == x);
        assert(key_group::<T>(b, kx).last() == y);
        assert(sorted_by_description::<T>(at)) by {
            assert forall|i: int, j: int| 0 <= i < j < at.len() implies !bytes_lt(
                #[trigger] description_key::<T>(at[j]),
                #[trigger] description_key::<T>(at[i]),
            ) by {
                assert(at[i] == a[i] && at[j] == a[j]);
            }
        }
        assert(sorted_by_description::<T>(bt)) by {
            assert forall|i: int, j: int| 0 <= i < j < bt.len() implies !bytes_lt(
                #[trigger] description_key::<T>(bt[j]),
                #[trigger] description_key::<T>(bt[i]),
            ) by {
                assert(bt[i] == b[i] && bt[j] == b[j]);
            }
        }
        lemma_sorted_groups_determine::<T>(at, bt);
    }
}

/// Two stable sorts of inputs with the same groups are the same list.
pub proof fn lemma_stable_sorted_unique<T: Described>(
    a: Seq<T::V>,
    b: Seq<T::V>,
    ia: Seq<T::V>,
    ib: Seq<T::V>,
)
    requires
        stable_sorted::<T>(a, ia),
        stable_sorted::<T>(b, ib),
        forall|k: Seq<u8>| #[trigger] key_group::<T>(ia, k) == key_group::<T>(ib, k),
    ensures
        a == b,
{
    assert forall|k: Seq<u8>| #[trigger] key_group::<T>(a, k) == key_group::<T>(b, k) by {
        assert(key_group::<T>(a, k) == key_group::<T>(ia, k));
        assert(key_group::<T>(b, k) == key_group::<T>(ib, k));
        assert(key_group::<T>(ia, k) == key_group::<T>(ib, k));
    }
    lemma_sorted_groups_determine::<T>(a, b);
}

/// Filtering by `p` then by `q` is filtering by their conjunction `r`.
pub proof fn lemma_filter_and<A>(
    s: Seq<A>,
    p: spec_fn(A) -> bool,
    q: spec_fn(A) -> bool,
    r: spec_fn(A) -> bool,
)
    requires
        forall|x: A| #[trigger] r(x) == (p(x) && q(x)),
    ensures
        s.filter(p).filter(q) == s.filter(r),
    decreases s.len(),
{
    if s.len() > 0 {
        let t = s.drop_last();
        let x = s.last();
        lemma_filter_and(t, p, q, r);
        assert(t.push(x) =~= s);
        t.lemma_filter_push(x, p);
        t.lemma_filter_push(x, r);
        t.filter(p).lemma_filter_push(x, q);
        assert(r(x) == (p(x) && q(x)));
    } else {
        assert(s.filter(p) =~= s) by {
            reveal(Seq::filter);
        }
        assert(s.filter(r) =~= s) by {
            reveal(Seq::filter);
        }
    }
}

/// A filter keeps every copy of a record that passes it, and none of one
/// that does not.
pub proof fn lemma_filter_count<A>(s: Seq<A>, p: spec_fn(A) -> bool, x: A)
    ensures
        s.filter(p).to_multiset().count(x) == if p(x) {
            s.to_multiset().count(x)
        } else {
            0
        },
    decreases s.len(),
{
    broadcast use vstd::seq_lib::group_to_multiset_ensures;

    if s.len() > 0 {
        let t = s.drop_last();
        let y = s.last();
        lemma_filter_count(t, p, x);
        assert(t.push(y) =~= s);
        t.lemma_filter_push(y, p);
    } else {
        assert(s.filter(p) =~= s) by {
            reveal(Seq::filter);
        }
        assert(s.to_multiset().len() == 0);
    }
}

/// Filtering two lists that hold the same records the same number of times
/// gives two such lists.
pub proof fn lemma_filter_same_records<A>(s: Seq<A>, t: Seq<A>, p: spec_fn(A) -> bool)
    requires
        s.to_multiset() == t.to_multiset(),
    ensures
        s.filter(p).to_multiset() == t.filter(p).to_multiset(),
{
    assert forall|x: A| #[trigger] s.filter(p).to_multiset().count(x) == t.filter(p).to_multiset().count(x) by {
        lemma_filter_count(s, p, x);
        lemma_filter_count(t, p, x);
    }
    assert(s.filter(p).to_multiset() =~= t.filter(p).to_multiset());
}

/// When no two records of `s` pass `q`, at most one is kept.
pub proof fn lemma_filter_at_most_one<A>(s: Seq<A>, q: spec_fn(A) -> bool)
    requires
        forall|i: int, j: int| 0 <= i < j < s.len() && #[trigger] q(s[i]) ==> !#[trigger] q(s[j]),
    ensures
        s.filter(q).len() <= 1,
    decreases s.len(),
{
    if s.len() > 0 {
        let t = s.drop_last();
        let x = s.last();
        assert forall|i: int, j: int| 0 <= i < j < t.len() && #[trigger] q(t[i]) implies !#[trigger] q(t[j]) by {
            assert(t[i] == s[i] && t[j] == s[j]);
        }
        lemma_filter_at_most_one(t, q);
        assert(t.push(x) =~= s);
        t.lemma_filter_push(x, q);
        if q(x) && t.filter(q).len() > 0 {
            let f = t.filter(q);
            t.lemma_filter_pred(q, 0);
            assert(f.contains(f[0]));
            t.lemma_filter_contains_rev(q, f[0]);
            let m = choose|m: int| 0 <= m < t.len() && t[m] == f[0];
            assert(s[m] == t[m]);
            assert(s[s.len() - 1] == x);
            assert(q(s[m]));
            assert(!q(s[s.len() - 1]));
        }
    } else {
        assert(s.filter(q) =~= s) by {
            reveal(Seq::filter);
        }
    }
}

/// Two lists of at most one record that hold the same records are equal.
pub proof fn lemma_same_records_short<A>(s: Seq<A>, t: Seq<A>)
    requires
        s.to_multiset() == t.to_multiset(),
        t.len() <= 1,
    ensures
        s == t,
{
    broadcast use vstd::seq_lib::group_to_multiset_ensures;

    assert(s.len() == s.to_multiset().len());
    assert(t.len() == t.to_multiset().len());
    if s.len() == 1 {
        assert(s.contains(s[0]));
        assert(t.to_multiset().count(s[0]) > 0);
        assert(t.contains(s[0]));
        assert(s =~= t);
    } else {
        assert(s =~= t);
    }
}

/// Putting `x` at a place where everything before it has a key at most its
/// own and everything after a key above it keeps a stable sort stable, with
/// `x` taken as the last input record.
proof fn lemma_insert_stable<T: Described>(out: Seq<T::V>, inp: Seq<T::V>, x: T::V, p: int)
    requires
        stable_sorted::<T>(out, inp),
        0 <= p <= out.len(),
        forall|i: int|
            0 <= i < p ==> !bytes_lt(description_key::<T>(x), #[trigger] description_key::<T>(out[i])),
        forall|i: int|
            p <= i < out.len() ==> bytes_lt(description_key::<T>(x), #[trigger] description_key::<T>(out[i])),
    ensures
        stable_sorted::<T>(out.insert(p, x), inp.push(x)),
{
    let new = out.insert(p, x);
    let kx = description_key::<T>(x);
    assert forall|i: int, j: int| 0 <= i < j < new.len() implies !bytes_lt(
        #[trigger] description_key::<T>(new[j]),
        #[trigger] description_key::<T>(new[i]),
    ) by {
        if j < p {
            assert(new[i] == out[i] && new[j] == out[j]);
        } else if j == p {
            assert(new[i] == out[i]);
        } else if i == p {
            assert(new[j] == out[j - 1]);
            lemma_bytes_lt_asymmetric(kx, description_key::<T>(out[j - 1]));
        } else if i < p {
            assert(new[i] == out[i] && new[j] == out[j - 1]);
        } else {
            assert(new[i] == out[i - 1] && new[j] == out[j - 1]);
        }
    }
    let a = out.take(p);
    let b = out.skip(p);
    assert(new =~= a + seq![x] + b);
    assert(out =~= a + b);
    assert forall|k: Seq<u8>| #[trigger] key_group::<T>(new, k) == key_group::<T>(inp.push(x), k) by {
        let pk = has_key::<T>(k);
        Seq::filter_distributes_over_add(a + seq![x], b, pk);
        Seq::filter_distributes_over_add(a, seq![x], pk);
        Seq::filter_distributes_over_add(a, b, pk);
        inp.lemma_filter_push(x, pk);
        a.lemma_filter_push(x, pk);
        assert(a + seq![x] =~= a.push(x));
        assert(key_group::<T>(out, k) == key_group::<T>(inp, k));
        if kx == k {
            assert forall|i: int| 0 <= i < b.len() implies description_key::<T>(#[trigger] b[i])
                != k by {
                assert(b[i] == out[p + i]);
                lemma_bytes_lt_irreflexive(kx);
            }
            lemma_key_group_empty::<T>(b, k);
            assert(b.filter(pk) =~= Seq::<T::V>::empty());
            assert(a.filter(pk).push(x) + Seq::<T::V>::empty() =~= a.filter(pk).push(x));
            assert(a.filter(pk) + Seq::<T::V>::empty() =~= a.filter(pk));
        } else {
            assert(a.filter(pk) =~= a.filter(pk));
        }
    }
}

/// The first place in sorted `out` whose record sorts strictly after `x`.
fn insertion_point<T: Described>(out: &Vec<T>, x: &T) -> (p: usize)
    requires
        sorted_by_description::<T>(views(out@)),
    ensures
        p <= out@.len(),
        forall|i: int|
            0 <= i < p ==> !bytes_lt(
                description_key::<T>(x@),
                #[trigger] description_key::<T>(views(out@)[i]),
            ),
        forall|i: int|
            p <= i < out@.len() ==> bytes_lt(
                description_key::<T>(x@),
                #[trigger] description_key::<T>(views(out@)[i]),
            ),
{
    let xd = x.description_text();
    let mut j: usize = 0;
    while j < out.len()
        invariant
            j <= out@.len(),
            xd@ == T::description_of(x@),
            sorted_by_description::<T>(views(out@)),
            forall|i: int|
                0 <= i < j ==> !bytes_lt(
                    description_key::<T>(x@),
                    #[trigger] description_key::<T>(views(out@)[i]),
                ),
        decreases out.len() - j,
    {
        let d = out[j].description_text();
        if text_lt(xd, d) {
            let ghost s = views(out@);
            let ghost kx = description_key::<T>(x@);
            assert(s[j as int] == out@[j as int]@);
            assert forall|i: int| j <= i < out@.len() implies bytes_lt(
                kx,
                #[trigger] description_key::<T>(s[i]),
            ) by {
                if i > j {
                    lemma_bytes_lt_total(description_key::<T>(s[i]), description_key::<T>(s[j as int]));
                    if description_key::<T>(s[i]) != description_key::<T>(s[j as int]) {
                        lemma_bytes_lt_transitive(kx, description_key::<T>(s[j as int]), description_key::<T>(s[i]));
                    }
                }
            }
            return j;
        }
        assert(views(out@)[j as int] == out@[j as int]@);
        j = j + 1;
    }
    j
}

/// `v` sorted by description, records of equal description in their order in
/// `v`, as `sort_by` with `String`'s ordering of the descriptions gives.
pub fn sort_by_description<T: Described>(v: Vec<T>) -> (r: Vec<T>)
    ensures
        stable_sorted::<T>(views(r@), views(v@)),
{
    let ghost orig = views(v@);
    let mut input = v;
    let mut out: Vec<T> = Vec::new();
    let ghost mut taken: int = 0;
    assert(views(out@) =~= Seq::<T::V>::empty());
    assert(orig.take(0) =~= Seq::<T::V>::empty());
    assert(views(input@) =~= orig.skip(0));
    while input.len() > 0
        invariant
            0 <= taken <= orig.len(),
            views(input@) == orig.skip(taken),
            stable_sorted::<T>(views(out@), orig.take(taken)),
        decreases input.len(),
    {
        let ghost vin = input@;
        let x = input.remove(0);
        let ghost xv = x@;
        assert(views(vin)[0] == vin[0]@);
        assert(views(vin) == orig.skip(taken));
        assert(views(vin).len() == vin.len());
        assert(orig.skip(taken)[0] == orig[taken]);
        assert(views(vin)[0] == orig[taken]);
        assert(views(input@) =~= views(vin).drop_first());
        assert(views(vin).drop_first() =~= orig.skip(taken + 1));
        let p = insertion_point(&out, &x);
        let ghost before = views(out@);
        out.insert(p, x);
        proof {
            lemma_insert_stable::<T>(before, orig.take(taken), xv, p as int);
            assert(views(out@) =~= before.insert(p as int, xv));
            assert(orig.take(taken).push(xv) =~= orig.take(taken + 1));
            taken = taken + 1;
        }
    }
    assert(orig.take(taken) =~= orig);
    out
}

} // verus!
