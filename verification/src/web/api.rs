//! The JSON route listing.
use vstd::prelude::*;

use crate::model::{Route, RouteView};
use crate::store::{route_views, sort_routes, Store};

verus! {

/// The routes of `s` that are not hidden, in order.
pub open spec fn visible_views(s: Seq<RouteView>) -> Seq<RouteView>
    decreases s.len(),
{
    if s.len() == 0 {
        s
    } else {
        let prev = visible_views(s.drop_last());
        if s.last().hidden {
            prev
        } else {
            prev.push(s.last())
        }
    }
}

/// The routes served at `/api/routes`: all non-hidden routes, sorted by
/// (group, order, name).
pub fn api_routes(store: &Store) -> (v: Vec<Route>)
    ensures
        route_views(v@) == visible_views(sort_routes(store@)),
{
    let all = store.list();
    let ghost rv = route_views(all@);
    let mut out: Vec<Route> = Vec::new();
    let mut i: usize = 0;
    assert(route_views(out@) =~= visible_views(rv.subrange(0, 0)));
    while i < all.len()
        invariant
            rv == route_views(all@),
            i <= all.len(),
            route_views(out@) == visible_views(rv.subrange(0, i as int)),
        decreases all.len() - i,
    {
        let r = &all[i];
        assert(rv.subrange(0, i + 1).drop_last() =~= rv.subrange(0, i as int));
        assert(rv.subrange(0, i + 1).last() == r@);
        if !r.hidden {
            let ghost before = route_views(out@);
            out.push(r.duplicate());
            assert(route_views(out@) =~= before.push(r@));
        }
        i = i + 1;
    }
    assert(rv.subrange(0, all.len() as int) =~= rv);
    out
}

/// The listing holds no hidden route, every route it holds is stored, and
/// every stored route that is not hidden is listed.
pub proof fn lemma_visible_views(s: Seq<RouteView>)
    ensures
        forall|i: int| 0 <= i < visible_views(s).len() ==> !(#[trigger] visible_views(s)[i]).hidden,
        forall|i: int| 0 <= i < visible_views(s).len() ==> s.contains(#[trigger] visible_views(s)[i]),
        visible_views(s).len() <= s.len(),
        forall|i: int| 0 <= i < s.len() && !s[i].hidden ==> visible_views(s).contains(#[trigger] s[i]),
    decreases s.len(),
{
    if s.len() > 0 {
        lemma_visible_views(s.drop_last());
        let d = s.drop_last();
        let v = visible_views(s);
        assert forall|i: int| 0 <= i < s.len() && !s[i].hidden implies v.contains(#[trigger] s[i]) by {
            if i < s.len() - 1 {
                assert(d[i] == s[i]);
                assert(visible_views(d).contains(d[i]));
                let k = choose|k: int| 0 <= k < visible_views(d).len() && visible_views(d)[k] == d[i];
                assert(v[k] == visible_views(d)[k]);
            } else {
                assert(v[v.len() - 1] == s.last());
            }
        }
        let prev = visible_views(s.drop_last());
        assert forall|i: int| 0 <= i < visible_views(s).len() implies s.contains(
            #[trigger] visible_views(s)[i],
        ) by {
            if i < prev.len() {
                let x = prev[i];
                assert(s.drop_last().contains(x));
                let j = choose|j: int| 0 <= j < s.drop_last().len() && s.drop_last()[j] == x;
                assert(s[j] == x);
            } else {
                assert(s[s.len() - 1] == s.last());
            }
        }
    }
}

} // verus!
