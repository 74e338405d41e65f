//! The route table: routes keyed by id in discovery order, listed sorted by
//! (group, order, name), and the change events that each update emits.
use indexmap::IndexMap;

use vstd::prelude::*;

use crate::model::{HealthStatus, Route, RouteView};
use crate::text::chars_of;

verus! {

// ---------------------------------------------------------------------------
// The outside ordered map
// ---------------------------------------------------------------------------

#[verifier::external_type_specification]
#[verifier::external_body]
#[verifier::reject_recursive_types(K)]
#[verifier::reject_recursive_types(V)]
#[verifier::reject_recursive_types(S)]
pub struct ExIndexMap<K, V, S>(IndexMap<K, V, S>);

/// The entries of an `IndexMap` of routes, in their order: key and route value.
pub uninterp spec fn route_entries(m: IndexMap<String, Route>) -> Seq<(Seq<char>, RouteView)>;

/// The position of the first entry whose key is `k`.
pub open spec fn first_key_index(s: Seq<(Seq<char>, RouteView)>, k: Seq<char>) -> Option<int>
    decreases s.len(),
{
    if s.len() == 0 {
        None
    } else {
        match first_key_index(s.drop_last(), k) {
            Some(i) => Some(i),
            None => if s.last().0 == k {
                Some(s.len() - 1)
            } else {
                None
            },
        }
    }
}

/// `IndexMap::new`: an empty map.
#[verifier::external_body]
fn index_new() -> (m: IndexMap<String, Route>)
    ensures
        route_entries(m) == Seq::<(Seq<char>, RouteView)>::empty(),
{
    IndexMap::new()
}

/// `IndexMap::len`: the number of entries.
#[verifier::external_body]
fn index_len(m: &IndexMap<String, Route>) -> (n: usize)
    ensures
        n == route_entries(*m).len(),
{
    m.len()
}

/// `IndexMap::get_index`: the entry at position `i`, if there is one.
#[verifier::external_body]
fn index_get(m: &IndexMap<String, Route>, i: usize) -> (r: Option<(&String, &Route)>)
    ensures
        r is Some <==> i < route_entries(*m).len(),
        r is Some ==> (r.unwrap().0@, r.unwrap().1@) == route_entries(*m)[i as int],
{
    m.get_index(i)
}

/// `IndexMap::get_index_of`: the position of the entry with key `key`.
#[verifier::external_body]
fn index_position(m: &IndexMap<String, Route>, key: &str) -> (r: Option<usize>)
    ensures
        match first_key_index(route_entries(*m), key@) {
            Some(i) => r is Some && r.unwrap() as int == i,
            None => r is None,
        },
{
    m.get_index_of(key)
}

/// `IndexMap::insert`: an existing key keeps its place and takes the new
/// value (the old one is returned); a new key is appended last.
#[verifier::external_body]
fn index_insert(m: &mut IndexMap<String, Route>, key: String, value: Route) -> (r: Option<Route>)
    ensures
        match first_key_index(route_entries(*old(m)), key@) {
            Some(i) => route_entries(*final(m)) == route_entries(*old(m)).update(
                i,
                (key@, value@),
            ) && (r matches Some(v) && v@ == route_entries(*old(m))[i].1),
            None => route_entries(*final(m)) == route_entries(*old(m)).push((key@, value@))
                && r is None,
        },
{
    m.insert(key, value)
}

/// `IndexMap::shift_remove`: the entry with key `key` is removed and the ones
/// after it move up one place, keeping their order.
#[verifier::external_body]
fn index_shift_remove(m: &mut IndexMap<String, Route>, key: &str) -> (r: Option<Route>)
    ensures
        match first_key_index(route_entries(*old(m)), key@) {
            Some(i) => route_entries(*final(m)) == route_entries(*old(m)).remove(i) && (r matches Some(
                v,
            ) && v@ == route_entries(*old(m))[i].1),
            None => route_entries(*final(m)) == route_entries(*old(m)) && r is None,
        },
{
    m.shift_remove(key)
}

// ---------------------------------------------------------------------------
// Ordering routes
// ---------------------------------------------------------------------------

/// Lexicographic order on character sequences, by code point (the order of
/// `String`'s `Ord`, since UTF-8 preserves code point order byte by byte).
pub open spec fn text_lt(a: Seq<char>, b: Seq<char>) -> bool
    decreases a.len(),
{
    if a.len() == 0 {
        b.len() > 0
    } else if b.len() == 0 {
        false
    } else if a[0] != b[0] {
        a[0] < b[0]
    } else {
        text_lt(a.drop_first(), b.drop_first())
    }
}

/// `a` sorts strictly before `b` by (group, order, name).
pub open spec fn route_before(a: RouteView, b: RouteView) -> bool {
    ||| text_lt(a.group, b.group)
    ||| (a.group == b.group && a.order < b.order)
    ||| (a.group == b.group && a.order == b.order && text_lt(a.name, b.name))
}

/// `t` with `x` inserted after the last element that does not sort after it.
pub open spec fn insert_sorted(t: Seq<RouteView>, x: RouteView) -> Seq<RouteView>
    decreases t.len(),
{
    if t.len() == 0 || !route_before(x, t.last()) {
        t.push(x)
    } else {
        insert_sorted(t.drop_last(), x).push(t.last())
    }
}

/// The routes sorted by (group, order, name); routes with equal keys keep
/// their relative order (a stable sort).
pub open spec fn sort_routes(s: Seq<RouteView>) -> Seq<RouteView>
    decreases s.len(),
{
    if s.len() == 0 {
        s
    } else {
        insert_sorted(sort_routes(s.drop_last()), s.last())
    }
}

/// No route sorts before the one listed ahead of it.
pub open spec fn sorted_routes(s: Seq<RouteView>) -> bool {
    forall|i: int| 0 <= i < s.len() - 1 ==> !route_before(#[trigger] s[i + 1], s[i])
}

pub proof fn lemma_text_lt_irreflexive(a: Seq<char>)
    ensures
        !text_lt(a, a),
    decreases a.len(),
{
    if a.len() > 0 {
        lemma_text_lt_irreflexive(a.drop_first());
    }
}

pub proof fn lemma_text_lt_asymmetric(a: Seq<char>, b: Seq<char>)
    requires
        text_lt(a, b),
    ensures
        !text_lt(b, a),
    decreases a.len(),
{
    if a.len() > 0 && b.len() > 0 && a[0] == b[0] {
        lemma_text_lt_asymmetric(a.drop_first(), b.drop_first());
    }
}

pub proof fn lemma_route_before_asymmetric(a: RouteView, b: RouteView)
    requires
        route_before(a, b),
    ensures
        !route_before(b, a),
{
    if text_lt(a.group, b.group) {
        lemma_text_lt_asymmetric(a.group, b.group);
        lemma_text_lt_irreflexive(a.group);
    } else if a.group == b.group && a.order < b.order {
        lemma_text_lt_irreflexive(a.group);
    } else {
        lemma_text_lt_irreflexive(a.group);
        lemma_text_lt_asymmetric(a.name, b.name);
    }
}

proof fn lemma_insert_sorted_last(t: Seq<RouteView>, x: RouteView)
    ensures
        insert_sorted(t, x).len() == t.len() + 1,
        insert_sorted(t, x).last() == x || (t.len() > 0 && insert_sorted(t, x).last() == t.last()),
    decreases t.len(),
{
    if t.len() > 0 && route_before(x, t.last()) {
        lemma_insert_sorted_last(t.drop_last(), x);
    }
}

proof fn lemma_insert_sorted_keeps_sorted(t: Seq<RouteView>, x: RouteView)
    requires
        sorted_routes(t),
    ensures
        sorted_routes(insert_sorted(t, x)),
    decreases t.len(),
{
    if t.len() == 0 || !route_before(x, t.last()) {
        let r = t.push(x);
        assert forall|i: int| 0 <= i < r.len() - 1 implies !route_before(#[trigger] r[i + 1], r[i]) by {
            if i < t.len() - 1 {
                assert(r[i + 1] == t[i + 1]);
            }
        }
    } else {
        let u = t.drop_last();
        assert forall|i: int| 0 <= i < u.len() - 1 implies !route_before(#[trigger] u[i + 1], u[i]) by {
            assert(u[i + 1] == t[i + 1]);
        }
        lemma_insert_sorted_keeps_sorted(u, x);
        lemma_insert_sorted_last(u, x);
        let v = insert_sorted(u, x);
        let r = v.push(t.last());
        lemma_route_before_asymmetric(x, t.last());
        assert forall|i: int| 0 <= i < r.len() - 1 implies !route_before(#[trigger] r[i + 1], r[i]) by {
            if i < v.len() - 1 {
                assert(r[i + 1] == v[i + 1]);
            } else {
                assert(r[i] == v.last());
                if v.last() != x {
                    assert(t[t.len() - 1] == t.last());
                    assert(sorted_routes(t));
                    assert(!route_before(t[(t.len() - 2) + 1], t[t.len() - 2]));
                }
            }
        }
    }
}

proof fn lemma_sort_routes_adjacent(s: Seq<RouteView>)
    ensures
        sorted_routes(sort_routes(s)),
    decreases s.len(),
{
    if s.len() > 0 {
        lemma_sort_routes_adjacent(s.drop_last());
        lemma_insert_sorted_keeps_sorted(sort_routes(s.drop_last()), s.last());
    }
}

/// The listing order is sorted by (group, order, name): no listed route sorts
/// before one listed ahead of it.
pub proof fn lemma_sort_routes_sorted(s: Seq<RouteView>)
    ensures
        sorted_routes(sort_routes(s)),
        forall|i: int, j: int|
            0 <= i < j < sort_routes(s).len() ==> !route_before(sort_routes(s)[j], sort_routes(s)[i]),
{
    lemma_sort_routes_adjacent(s);
    lemma_sorted_pairwise(sort_routes(s));
}

/// The listing order spelled out: groups in text order; within a group,
/// routes by ascending display order; within equal orders, names in text
/// order. Text order compares code points left to right, a proper prefix
/// first.
pub proof fn lemma_listing_order(s: Seq<RouteView>, i: int, j: int)
    requires
        0 <= i < j < sort_routes(s).len(),
    ensures
        ({
            let t = sort_routes(s);
            &&& !text_lt(t[j].group, t[i].group)
            &&& t[i].group == t[j].group ==> t[i].order <= t[j].order
            &&& t[i].group == t[j].group && t[i].order == t[j].order ==> !text_lt(
                t[j].name,
                t[i].name,
            )
        }),
{
    lemma_sort_routes_sorted(s);
    let t = sort_routes(s);
    assert(!route_before(t[j], t[i]));
}

/// Text order: a proper prefix sorts first, and otherwise the first
/// differing character decides.
pub proof fn lemma_text_order(p: Seq<char>, a: char, b: char, x: Seq<char>, y: Seq<char>)
    ensures
        text_lt(p, p + seq![a] + x),
        a < b ==> text_lt(p + seq![a] + x, p + seq![b] + y),
    decreases p.len(),
{
    if p.len() > 0 {
        lemma_text_order(p.drop_first(), a, b, x, y);
        assert((p + seq![a] + x).drop_first() =~= p.drop_first() + seq![a] + x);
        assert((p + seq![b] + y).drop_first() =~= p.drop_first() + seq![b] + y);
    } else {
        assert(p + seq![a] + x =~= seq![a] + x);
        assert(p + seq![b] + y =~= seq![b] + y);
    }
}

proof fn lemma_insert_sorted_multiset(t: Seq<RouteView>, x: RouteView)
    ensures
        insert_sorted(t, x).to_multiset() == t.to_multiset().insert(x),
    decreases t.len(),
{
    broadcast use vstd::seq_lib::group_to_multiset_ensures;

    if t.len() == 0 || !route_before(x, t.last()) {
    } else {
        lemma_insert_sorted_multiset(t.drop_last(), x);
        assert(t.drop_last().push(t.last()) =~= t);
        assert(t.to_multiset() == t.drop_last().to_multiset().insert(t.last()));
        assert(insert_sorted(t, x).to_multiset() =~= t.to_multiset().insert(x));
    }
}

/// Listing neither loses nor adds a route: the sorted listing holds the same
/// routes, each as many times.
pub proof fn lemma_sort_routes_permutation(s: Seq<RouteView>)
    ensures
        sort_routes(s).to_multiset() == s.to_multiset(),
    decreases s.len(),
{
    broadcast use vstd::seq_lib::group_to_multiset_ensures;

    if s.len() > 0 {
        lemma_sort_routes_permutation(s.drop_last());
        lemma_insert_sorted_multiset(sort_routes(s.drop_last()), s.last());
        assert(s.drop_last().push(s.last()) =~= s);
    }
}

proof fn lemma_text_lt_transitive(a: Seq<char>, b: Seq<char>, c: Seq<char>)
    requires
        text_lt(a, b),
        text_lt(b, c),
    ensures
        text_lt(a, c),
    decreases a.len(),
{
    if a.len() > 0 && a[0] == b[0] && b[0] == c[0] {
        lemma_text_lt_transitive(a.drop_first(), b.drop_first(), c.drop_first());
    }
}

/// Any two texts are equal or one sorts before the other.
pub proof fn lemma_text_lt_total(a: Seq<char>, b: Seq<char>)
    ensures
        a == b || text_lt(a, b) || text_lt(b, a),
    decreases a.len(),
{
    if a.len() > 0 && b.len() > 0 && a[0] == b[0] {
        lemma_text_lt_total(a.drop_first(), b.drop_first());
        if a.drop_first() == b.drop_first() {
            assert forall|i: int| 0 <= i < a.len() implies a[i] == b[i] by {
                if i > 0 {
                    assert(a[i] == a.drop_first()[i - 1]);
                    assert(b[i] == b.drop_first()[i - 1]);
                }
            }
            assert(a =~= b);
        }
    } else if a.len() == 0 && b.len() == 0 {
        assert(a =~= b);
    } else if a.len() > 0 && b.len() > 0 {
        assert(a[0] != b[0]);
    }
}

/// The two routes tie on (group, order, name).
pub open spec fn same_key(a: RouteView, b: RouteView) -> bool {
    a.group == b.group && a.order == b.order && a.name == b.name
}

proof fn lemma_route_before_transitive(a: RouteView, b: RouteView, c: RouteView)
    requires
        route_before(a, b),
        route_before(b, c),
    ensures
        route_before(a, c),
{
    if text_lt(a.group, b.group) && text_lt(b.group, c.group) {
        lemma_text_lt_transitive(a.group, b.group, c.group);
    } else if a.group == b.group && b.group == c.group && a.order == b.order && b.order == c.order {
        lemma_text_lt_transitive(a.name, b.name, c.name);
    }
}

proof fn lemma_route_before_total(a: RouteView, b: RouteView)
    ensures
        same_key(a, b) || route_before(a, b) || route_before(b, a),
{
    lemma_text_lt_total(a.group, b.group);
    lemma_text_lt_total(a.name, b.name);
}

/// Not sorting after is transitive: (group, order, name) is a total preorder.
proof fn lemma_not_before_transitive(a: RouteView, b: RouteView, c: RouteView)
    requires
        !route_before(b, a),
        !route_before(c, b),
    ensures
        !route_before(c, a),
{
    lemma_route_before_total(a, b);
    lemma_route_before_total(b, c);
    lemma_text_lt_irreflexive(a.group);
    lemma_text_lt_irreflexive(a.name);
    if route_before(c, a) {
        if route_before(a, b) {
            lemma_route_before_transitive(c, a, b);
            if route_before(b, c) {
                lemma_route_before_transitive(c, b, c);
                lemma_route_before_asymmetric(c, b);
            }
        } else {
            assert(same_key(a, b));
            if route_before(b, c) {
                lemma_route_before_asymmetric(b, c);
            }
        }
    }
}

/// In the listing no route sorts before any route listed ahead of it, however
/// far apart the two stand.
pub proof fn lemma_sorted_pairwise(s: Seq<RouteView>)
    requires
        sorted_routes(s),
    ensures
        forall|i: int, j: int| 0 <= i < j < s.len() ==> !route_before(s[j], s[i]),
{
    assert forall|i: int, j: int| 0 <= i < j < s.len() implies !route_before(s[j], s[i]) by {
        lemma_sorted_from(s, i, j);
    }
}

proof fn lemma_sorted_from(s: Seq<RouteView>, i: int, j: int)
    requires
        sorted_routes(s),
        0 <= i < j < s.len(),
    ensures
        !route_before(s[j], s[i]),
    decreases j - i,
{
    assert(!route_before(s[i + 1], s[i]));
    if j > i + 1 {
        lemma_sorted_from(s, i + 1, j);
        lemma_not_before_transitive(s[i], s[i + 1], s[j]);
    }
}

/// Routes whose keys all tie keep their order: sorting them changes nothing.
pub proof fn lemma_sort_keeps_tied_order(s: Seq<RouteView>)
    requires
        forall|i: int, j: int| 0 <= i < s.len() && 0 <= j < s.len() ==> !route_before(s[i], s[j]),
    ensures
        sort_routes(s) == s,
    decreases s.len(),
{
    if s.len() > 0 {
        let d = s.drop_last();
        assert forall|i: int, j: int| 0 <= i < d.len() && 0 <= j < d.len() implies !route_before(
            d[i],
            d[j],
        ) by {
            assert(d[i] == s[i] && d[j] == s[j]);
        }
        lemma_sort_keeps_tied_order(d);
        if d.len() > 0 {
            assert(d.last() == s[s.len() - 2]);
        }
        assert(d.push(s.last()) =~= s);
    }
}

/// Whether `a` sorts before `b` as text.
fn text_before(a: &Vec<char>, b: &Vec<char>) -> (r: bool)
    ensures
        r == text_lt(a@, b@),
{
    let mut i: usize = 0;
    assert(a@.subrange(0, a@.len() as int) =~= a@);
    assert(b@.subrange(0, b@.len() as int) =~= b@);
    while i < a.len() && i < b.len() && a[i] == b[i]
        invariant
            i <= a.len(),
            i <= b.len(),
            text_lt(a@, b@) == text_lt(
                a@.subrange(i as int, a@.len() as int),
                b@.subrange(i as int, b@.len() as int),
            ),
        decreases a.len() - i,
    {
        assert(a@.subrange(i as int, a@.len() as int).drop_first() =~= a@.subrange(
            i + 1,
            a@.len() as int,
        ));
        assert(b@.subrange(i as int, b@.len() as int).drop_first() =~= b@.subrange(
            i + 1,
            b@.len() as int,
        ));
        i = i + 1;
    }
    if i == a.len() {
        i < b.len()
    } else if i == b.len() {
        false
    } else {
        a[i] < b[i]
    }
}

/// Whether route `a` sorts strictly before route `b` by (group, order, name).
pub fn sorts_before(a: &Route, b: &Route) -> (r: bool)
    ensures
        r == route_before(a@, b@),
{
    let ga = chars_of(a.group.as_str());
    let gb = chars_of(b.group.as_str());
    if text_before(&ga, &gb) {
        return true;
    }
    if !crate::text::chars_eq(&ga, &gb) {
        return false;
    }
    if a.order != b.order {
        return a.order < b.order;
    }
    let na = chars_of(a.name.as_str());
    let nb = chars_of(b.name.as_str());
    text_before(&na, &nb)
}

/// The values of a vector of routes.
pub open spec fn route_views(v: Seq<Route>) -> Seq<RouteView> {
    v.map_values(|r: Route| r@)
}

proof fn lemma_insert_sorted_split(t: Seq<RouteView>, x: RouteView, j: int)
    requires
        0 <= j <= t.len(),
        j == 0 || !route_before(x, t[j - 1]),
        forall|k: int| j <= k < t.len() ==> route_before(x, #[trigger] t[k]),
    ensures
        insert_sorted(t, x) == t.subrange(0, j).push(x) + t.subrange(j, t.len() as int),
    decreases t.len(),
{
    if t.len() == j {
        assert(t.subrange(0, j) =~= t);
        assert(t.subrange(j, t.len() as int) =~= Seq::<RouteView>::empty());
        assert(t.push(x) + Seq::<RouteView>::empty() =~= t.push(x));
    } else {
        let u = t.drop_last();
        assert forall|k: int| j <= k < u.len() implies route_before(x, #[trigger] u[k]) by {
            assert(u[k] == t[k]);
        }
        if j > 0 {
            assert(u[j - 1] == t[j - 1]);
        }
        assert(route_before(x, t[t.len() - 1]));
        lemma_insert_sorted_split(u, x, j);
        assert(u.subrange(0, j) =~= t.subrange(0, j));
        assert((u.subrange(0, j).push(x) + u.subrange(j, u.len() as int)).push(t.last())
            =~= t.subrange(0, j).push(x) + t.subrange(j, t.len() as int));
    }
}

/// Sorts routes by (group, order, name), keeping equal keys in their order.
pub fn sort_by_group_order_name(v: &Vec<Route>) -> (r: Vec<Route>)
    ensures
        route_views(r@) == sort_routes(route_views(v@)),
{
    let ghost all = route_views(v@);
    let mut out: Vec<Route> = Vec::new();
    assert(route_views(out@) =~= sort_routes(all.subrange(0, 0)));
    let n = v.len();
    let mut i: usize = 0;
    while i < n
        invariant
            n == v.len(),
            all == route_views(v@),
            i <= n,
            route_views(out@) == sort_routes(all.subrange(0, i as int)),
        decreases n - i,
    {
        let x = v[i].duplicate();
        assert(x@ == all[i as int]);
        let ghost t = route_views(out@);
        let mut j: usize = out.len();
        while j > 0 && sorts_before(&x, &out[j - 1])
            invariant
                j <= out.len(),
                t == route_views(out@),
                forall|k: int| j <= k < t.len() ==> route_before(x@, #[trigger] t[k]),
            decreases j,
        {
            j = j - 1;
        }
        proof {
            lemma_insert_sorted_split(t, x@, j as int);
            assert(all.subrange(0, i + 1).drop_last() =~= all.subrange(0, i as int));
        }
        out.insert(j, x);
        assert(route_views(out@) =~= t.subrange(0, j as int).push(all[i as int]) + t.subrange(
            j as int,
            t.len() as int,
        ));
        i = i + 1;
    }
    assert(all.subrange(0, n as int) =~= all);
    out
}

// ---------------------------------------------------------------------------
// The store
// ---------------------------------------------------------------------------

/// A change to the route table, as broadcast to subscribers.
#[derive(Clone, Debug)]
pub enum Change {
    Upsert(Box<Route>),
    Remove(String),
}

/// The routes known to the dashboard, keyed by id, in the order in which
/// their ids were first seen.
pub struct Store {
    routes: IndexMap<String, Route>,
}

/// No two routes have the same id.
pub open spec fn ids_unique(s: Seq<RouteView>) -> bool {
    forall|i: int, j: int| 0 <= i < s.len() && 0 <= j < s.len() && i != j ==> s[i].id != s[j].id
}

/// The position of the route with id `id`.
pub open spec fn id_index(s: Seq<RouteView>, id: Seq<char>) -> Option<int>
    decreases s.len(),
{
    if s.len() == 0 {
        None
    } else {
        match id_index(s.drop_last(), id) {
            Some(i) => Some(i),
            None => if s.last().id == id {
                Some(s.len() - 1)
            } else {
                None
            },
        }
    }
}

pub proof fn lemma_id_index(s: Seq<RouteView>, id: Seq<char>)
    ensures
        match id_index(s, id) {
            Some(i) => 0 <= i < s.len() && s[i].id == id && forall|k: int|
                0 <= k < i ==> s[k].id != id,
            None => forall|k: int| 0 <= k < s.len() ==> s[k].id != id,
        },
    decreases s.len(),
{
    if s.len() > 0 {
        lemma_id_index(s.drop_last(), id);
        match id_index(s.drop_last(), id) {
            Some(i) => {
                assert(s[i] == s.drop_last()[i]);
                assert forall|k: int| 0 <= k < i implies s[k].id != id by {
                    assert(s[k] == s.drop_last()[k]);
                }
            },
            None => {
                assert forall|k: int| 0 <= k < s.len() - 1 implies s[k].id != id by {
                    assert(s[k] == s.drop_last()[k]);
                }
            },
        }
    }
}

/// After an upsert the route is stored under its id, with exactly its value,
/// and ids stay unique.
pub proof fn lemma_upsert_then_present(s: Seq<RouteView>, r: RouteView)
    requires
        ids_unique(s),
    ensures
        ({
            let t = match id_index(s, r.id) {
                Some(i) => s.update(i, r),
                None => s.push(r),
            };
            &&& ids_unique(t)
            &&& id_index(t, r.id) matches Some(j) && t[j] == r
        }),
{
    lemma_id_index(s, r.id);
    let t = match id_index(s, r.id) {
        Some(i) => s.update(i, r),
        None => s.push(r),
    };
    lemma_id_index(t, r.id);
    match id_index(s, r.id) {
        Some(i) => {
            assert forall|a: int, b: int| 0 <= a < t.len() && 0 <= b < t.len() && a != b implies t[a].id
                != t[b].id by {
                if a != i && b != i {
                    assert(t[a] == s[a] && t[b] == s[b]);
                } else if a == i {
                    assert(t[b] == s[b]);
                } else {
                    assert(t[a] == s[a]);
                }
            }
        },
        None => {
            assert forall|a: int, b: int| 0 <= a < t.len() && 0 <= b < t.len() && a != b implies t[a].id
                != t[b].id by {
                if a < s.len() && b < s.len() {
                    assert(t[a] == s[a] && t[b] == s[b]);
                } else if a < s.len() {
                    assert(t[a] == s[a]);
                } else {
                    assert(t[b] == s[b]);
                }
            }
        },
    }
    lemma_id_index(t, r.id);
    match id_index(s, r.id) {
        Some(i) => {
            assert(t[i] == r);
        },
        None => {
            assert(t[s.len() as int] == r);
        },
    }
}

/// After a removal no route has the removed id, and ids stay unique.
pub proof fn lemma_remove_then_absent(s: Seq<RouteView>, id: Seq<char>)
    requires
        ids_unique(s),
    ensures
        ({
            let t = match id_index(s, id) {
                Some(i) => s.remove(i),
                None => s,
            };
            &&& ids_unique(t)
            &&& id_index(t, id) is None
        }),
{
    lemma_id_index(s, id);
    let t = match id_index(s, id) {
        Some(i) => s.remove(i),
        None => s,
    };
    match id_index(s, id) {
        Some(i) => {
            assert forall|a: int| 0 <= a < t.len() implies t[a].id != id by {
                if a < i {
                    assert(t[a] == s[a]);
                } else {
                    assert(t[a] == s[a + 1]);
                }
            }
            assert forall|a: int, b: int| 0 <= a < t.len() && 0 <= b < t.len() && a != b implies t[a].id
                != t[b].id by {
                let a0 = if a < i {
                    a
                } else {
                    a + 1
                };
                let b0 = if b < i {
                    b
                } else {
                    b + 1
                };
                assert(t[a] == s[a0]);
                assert(t[b] == s[b0]);
            }
        },
        None => {},
    }
    lemma_id_index(t, id);
}

/// A listing never shows an id that no stored route has: after a removal,
/// no listed route carries the removed id.
pub proof fn lemma_absent_id_not_listed(s: Seq<RouteView>, id: Seq<char>)
    requires
        forall|k: int| 0 <= k < s.len() ==> (#[trigger] s[k]).id != id,
    ensures
        forall|k: int| 0 <= k < sort_routes(s).len() ==> (#[trigger] sort_routes(s)[k]).id != id,
{
    broadcast use vstd::seq_lib::group_to_multiset_ensures;

    lemma_sort_routes_permutation(s);
    assert forall|k: int| 0 <= k < sort_routes(s).len() implies (#[trigger] sort_routes(s)[k]).id
        != id by {
        let x = sort_routes(s)[k];
        assert(sort_routes(s).contains(x));
        assert(s.to_multiset().count(x) > 0);
        assert(s.contains(x));
    }
}

impl View for Store {
    type V = Seq<RouteView>;

    /// The stored routes in table order.
    closed spec fn view(&self) -> Seq<RouteView> {
        entry_values(route_entries(self.routes))
    }
}

/// The routes held by the entries, in order.
pub open spec fn entry_values(e: Seq<(Seq<char>, RouteView)>) -> Seq<RouteView> {
    e.map_values(|p: (Seq<char>, RouteView)| p.1)
}

/// `h` with its health replaced.
pub open spec fn with_health(r: RouteView, h: HealthStatus) -> RouteView {
    RouteView { health: h, ..r }
}

proof fn lemma_first_key_is_id_index(e: Seq<(Seq<char>, RouteView)>, k: Seq<char>)
    requires
        forall|i: int| 0 <= i < e.len() ==> (#[trigger] e[i]).0 == e[i].1.id,
    ensures
        first_key_index(e, k) == id_index(entry_values(e), k),
    decreases e.len(),
{
    let v = entry_values(e);
    if e.len() > 0 {
        let d = e.drop_last();
        assert forall|i: int| 0 <= i < d.len() implies (#[trigger] d[i]).0 == d[i].1.id by {
            assert(d[i] == e[i]);
        }
        lemma_first_key_is_id_index(d, k);
        assert(entry_values(d) =~= v.drop_last());
        assert(e.last() == e[e.len() - 1]);
    }
}

impl Store {
    /// Every key is the id of its route, and no id occurs twice.
    pub closed spec fn wf(&self) -> bool {
        &&& forall|i: int|
            0 <= i < route_entries(self.routes).len() ==> (#[trigger] route_entries(self.routes)[i]).0
                == route_entries(self.routes)[i].1.id
        &&& ids_unique(self@)
    }

    /// No two stored routes share an id, in any well-formed store.
    pub proof fn lemma_wf_ids_unique(&self)
        requires
            self.wf(),
        ensures
            ids_unique(self@),
    {
    }

    /// An empty store.
    pub fn new() -> (s: Store)
        ensures
            s.wf(),
            ids_unique(s@),
            s@ == Seq::<RouteView>::empty(),
    {
        let s = Store { routes: index_new() };
        assert(s@ =~= Seq::<RouteView>::empty());
        s
    }

    /// Inserts the route, or replaces the route with the same id in its
    /// place, and returns the change to broadcast.
    pub fn upsert(&mut self, r: Route) -> (c: Change)
        requires
            old(self).wf(),
        ensures
            final(self).wf(),
            ids_unique(final(self)@),
            final(self)@ == (match id_index(old(self)@, r@.id) {
                Some(i) => old(self)@.update(i, r@),
                None => old(self)@.push(r@),
            }),
            c matches Change::Upsert(b) && (*b)@ == r@,
    {
        let ghost e0 = route_entries(self.routes);
        let ghost v0 = self@;
        proof {
            lemma_first_key_is_id_index(e0, r@.id);
            lemma_id_index(v0, r@.id);
        }
        let copy = r.duplicate();
        let key = r.id.clone();
        let _ = index_insert(&mut self.routes, key, r);
        let ghost e1 = route_entries(self.routes);
        proof {
            match id_index(v0, copy@.id) {
                Some(i) => {
                    assert(self@ =~= v0.update(i, copy@));
                },
                None => {
                    assert(self@ =~= v0.push(copy@));
                },
            }
            assert forall|i: int| 0 <= i < e1.len() implies (#[trigger] e1[i]).0 == e1[i].1.id by {
                if i < e0.len() {
                    assert(e0[i].0 == e0[i].1.id);
                }
            }
        }
        Change::Upsert(Box::new(copy))
    }

    /// Removes the route with this id, if any, keeping the others in order,
    /// and returns the change to broadcast.
    pub fn remove(&mut self, id: &str) -> (c: Change)
        requires
            old(self).wf(),
        ensures
            final(self).wf(),
            ids_unique(final(self)@),
            final(self)@ == (match id_index(old(self)@, id@) {
                Some(i) => old(self)@.remove(i),
                None => old(self)@,
            }),
            forall|k: int| 0 <= k < final(self)@.len() ==> (#[trigger] final(self)@[k]).id != id@,
            c matches Change::Remove(s) && s@ == id@,
    {
        let ghost e0 = route_entries(self.routes);
        let ghost v0 = self@;
        proof {
            lemma_first_key_is_id_index(e0, id@);
            lemma_id_index(v0, id@);
        }
        let _ = index_shift_remove(&mut self.routes, id);
        let ghost e1 = route_entries(self.routes);
        proof {
            match id_index(v0, id@) {
                Some(i) => {
                    assert(v0 == entry_values(e0));
                    assert(first_key_index(e0, id@) == Some(i));
                    assert(e1 == e0.remove(i));
                    assert(self@ =~= v0.remove(i));
                    assert forall|a: int| 0 <= a < e1.len() implies (#[trigger] e1[a]).0
                        == e1[a].1.id by {
                        if a < i {
                            assert(e1[a] == e0[a]);
                        } else {
                            assert(e1[a] == e0[a + 1]);
                        }
                    }
                    assert forall|a: int, b: int|
                        0 <= a < self@.len() && 0 <= b < self@.len() && a != b implies self@[a].id
                        != self@[b].id by {
                        let a0 = if a < i {
                            a
                        } else {
                            a + 1
                        };
                        let b0 = if b < i {
                            b
                        } else {
                            b + 1
                        };
                        assert(self@[a] == v0[a0]);
                        assert(self@[b] == v0[b0]);
                    }
                },
                None => {
                    assert(self@ =~= v0);
                },
            }
        }
        Change::Remove(String::from_str(id))
    }

    /// Sets the health of the route with this id, keeping everything else;
    /// returns the change to broadcast, or `None` when no route has the id.
    pub fn set_health(&mut self, id: &str, h: HealthStatus) -> (c: Option<Change>)
        requires
            old(self).wf(),
        ensures
            final(self).wf(),
            ids_unique(final(self)@),
            match id_index(old(self)@, id@) {
                Some(i) => final(self)@ == old(self)@.update(i, with_health(old(self)@[i], h)) && (c matches Some(
                    Change::Upsert(b),
                ) && (*b)@ == with_health(old(self)@[i], h)),
                None => final(self)@ == old(self)@ && c is None,
            },
    {
        let ghost e0 = route_entries(self.routes);
        let ghost v0 = self@;
        proof {
            lemma_first_key_is_id_index(e0, id@);
            lemma_id_index(v0, id@);
        }
        match index_position(&self.routes, id) {
            None => None,
            Some(i) => {
                let updated = match index_get(&self.routes, i) {
                    Some(entry) => {
                        let mut u = entry.1.duplicate();
                        u.health = h;
                        u
                    },
                    None => {
                        return None;
                    },
                };
                assert(v0 == entry_values(e0));
                assert(id_index(v0, id@) == Some(i as int));
                assert(v0[i as int].id == id@);
                assert(v0[i as int] == e0[i as int].1);
                assert(updated@ == with_health(v0[i as int], h));
                let copy = updated.duplicate();
                let key = updated.id.clone();
                assert(key@ == id@);
                let _ = index_insert(&mut self.routes, key, updated);
                let ghost e1 = route_entries(self.routes);
                proof {
                    assert(self@ =~= v0.update(i as int, with_health(v0[i as int], h)));
                    assert forall|a: int| 0 <= a < e1.len() implies (#[trigger] e1[a]).0
                        == e1[a].1.id by {
                        if a != i {
                            assert(e1[a] == e0[a]);
                        }
                    }
                }
                Some(Change::Upsert(Box::new(copy)))
            },
        }
    }

    /// The number of stored routes.
    pub fn len(&self) -> (n: usize)
        ensures
            n == self@.len(),
    {
        index_len(&self.routes)
    }

    /// All routes, sorted by (group, order, name); routes with equal keys
    /// keep their table order.
    pub fn list(&self) -> (v: Vec<Route>)
        ensures
            route_views(v@) == sort_routes(self@),
    {
        let n = index_len(&self.routes);
        let mut all: Vec<Route> = Vec::new();
        let mut i: usize = 0;
        while i < n
            invariant
                n == self@.len(),
                i <= n,
                route_views(all@) == self@.subrange(0, i as int),
            decreases n - i,
        {
            match index_get(&self.routes, i) {
                Some(entry) => {
                    let r = entry.1.duplicate();
                    let ghost before = route_views(all@);
                    all.push(r);
                    assert(route_views(all@) =~= before.push(self@[i as int]));
                },
                None => {},
            }
            i = i + 1;
            assert(route_views(all@) =~= self@.subrange(0, i as int));
        }
        assert(self@.subrange(0, n as int) =~= self@);
        sort_by_group_order_name(&all)
    }
}

impl Default for Store {
    fn default() -> (s: Store)
        ensures
            s.wf(),
            ids_unique(s@),
            s@ == Seq::<RouteView>::empty(),
    {
        Store::new()
    }
}

} // verus!
