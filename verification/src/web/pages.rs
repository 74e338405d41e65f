//! The board page: which routes are shown for a search, grouped for rendering,
//! and the content types of the static assets.
use vstd::prelude::*;

use crate::icons::{icon_for, icon_spec, IconIndex};
use crate::model::{Route, RouteView};
use crate::store::{
    lemma_sort_routes_permutation, lemma_sort_routes_sorted, lemma_text_lt_total, route_before,
    sort_routes, Store,
};
use crate::text::{
    chars_of, contains, contains_seq, ends_with, escape_html, has_suffix, html_escaped,
    lowercase_of, string_of, to_lowercase, trim, trim_chars,
};

verus! {

/// The calendar year (on average Gregorian years of 31 556 952 s) that a
/// count of seconds since the Unix epoch falls in, as the page footer shows it.
pub fn year_of_epoch_secs(secs: u64) -> (y: u64)
    ensures
        y == 1970 + secs / 31_556_952,
{
    1970 + secs / 31_556_952
}

/// The search parameters of the board page.
pub struct BoardQuery {
    pub q: String,
}

impl Default for BoardQuery {
    fn default() -> (b: BoardQuery)
        ensures
            b.q@ == Seq::<char>::empty(),
    {
        BoardQuery { q: String::new() }
    }
}

/// The icon markup of a route's card: its vendored SVG; when none matches,
/// the `routecrab.io/icon` annotation value as plain (escaped) text, which is
/// empty when the annotation is not set.
pub open spec fn icon_text(icons: Map<Seq<char>, Seq<char>>, r: RouteView) -> Seq<char> {
    match icon_spec(icons, r.name, r.icon) {
        Some(svg) => svg,
        None => html_escaped(r.icon),
    }
}

/// The icon markup of a route's card.
pub fn card_icon(icons: &IconIndex, r: &Route) -> (t: String)
    ensures
        t@ == icon_text(icons@, r@),
{
    match icon_for(icons, r.name.as_str(), r.icon.as_str()) {
        Some(svg) => String::from_str(svg),
        None => escape_html(r.icon.as_str()),
    }
}

/// A route is on the board for the (trimmed, lowercased) search `q` when it
/// is not hidden and `q` is empty or occurs in its lowercased name, display
/// title or description.
pub open spec fn shown(r: RouteView, q: Seq<char>) -> bool {
    &&& !r.hidden
    &&& (q.len() == 0 || contains_seq(lowercase_of(r.name), q) || contains_seq(
        lowercase_of(r.display_title()),
        q,
    ) || contains_seq(lowercase_of(r.description), q))
}

/// The shown routes, in order, each with its icon text.
pub open spec fn board_entries(
    routes: Seq<RouteView>,
    q: Seq<char>,
    icons: Map<Seq<char>, Seq<char>>,
) -> Seq<(RouteView, Seq<char>)>
    decreases routes.len(),
{
    if routes.len() == 0 {
        Seq::empty()
    } else {
        let prev = board_entries(routes.drop_last(), q, icons);
        let r = routes.last();
        if shown(r, q) {
            prev.push((r, icon_text(icons, r)))
        } else {
            prev
        }
    }
}

/// Consecutive entries of the same group collected under that group's name,
/// in order of first occurrence.
pub open spec fn group_runs(s: Seq<(RouteView, Seq<char>)>) -> Seq<
    (Seq<char>, Seq<(RouteView, Seq<char>)>),
>
    decreases s.len(),
{
    if s.len() == 0 {
        Seq::empty()
    } else {
        let prev = group_runs(s.drop_last());
        let x = s.last();
        if prev.len() > 0 && prev.last().0 == x.0.group {
            prev.update(prev.len() - 1, (prev.last().0, prev.last().1.push(x)))
        } else {
            prev.push((x.0.group, seq![x]))
        }
    }
}

/// The entries of the groups, one group after the other.
pub open spec fn flatten_groups(g: Seq<(Seq<char>, Seq<(RouteView, Seq<char>)>)>) -> Seq<
    (RouteView, Seq<char>),
>
    decreases g.len(),
{
    if g.len() == 0 {
        Seq::empty()
    } else {
        flatten_groups(g.drop_last()) + g.last().1
    }
}

/// The values of (route, icon) entries.
pub open spec fn entry_views(v: Seq<(Route, String)>) -> Seq<(RouteView, Seq<char>)> {
    v.map_values(|e: (Route, String)| (e.0@, e.1@))
}

/// The values of groups.
pub open spec fn group_views(v: Seq<(String, Vec<(Route, String)>)>) -> Seq<
    (Seq<char>, Seq<(RouteView, Seq<char>)>),
> {
    v.map_values(|g: (String, Vec<(Route, String)>)| (g.0@, entry_views(g.1@)))
}

/// Grouping keeps every entry, in order: the groups laid end to end give back the input.
pub proof fn lemma_groups_flatten(s: Seq<(RouteView, Seq<char>)>)
    ensures
        flatten_groups(group_runs(s)) == s,
    decreases s.len(),
{
    if s.len() > 0 {
        let p = s.drop_last();
        lemma_groups_flatten(p);
        let prev = group_runs(p);
        let x = s.last();
        if prev.len() > 0 && prev.last().0 == x.0.group {
            let g = prev.update(prev.len() - 1, (prev.last().0, prev.last().1.push(x)));
            assert(g.drop_last() =~= prev.drop_last());
            assert(flatten_groups(prev) == flatten_groups(prev.drop_last()) + prev.last().1);
            assert(flatten_groups(g) =~= flatten_groups(prev) + seq![x]);
        } else {
            let g = prev.push((x.0.group, seq![x]));
            assert(g.drop_last() =~= prev);
        }
        assert(p.push(x) =~= s);
    }
}

/// Each group is non-empty, every entry in it belongs to its group, and two
/// neighbouring groups have different names.
pub open spec fn well_grouped(g: Seq<(Seq<char>, Seq<(RouteView, Seq<char>)>)>) -> bool {
    &&& forall|i: int| 0 <= i < g.len() ==> (#[trigger] g[i]).1.len() > 0
    &&& forall|i: int, j: int|
        0 <= i < g.len() && 0 <= j < g[i].1.len() ==> (#[trigger] g[i].1[j]).0.group == g[i].0
    &&& forall|i: int| 0 <= i < g.len() - 1 ==> (#[trigger] g[i + 1]).0 != g[i].0
}

pub proof fn lemma_groups_well_formed(s: Seq<(RouteView, Seq<char>)>)
    ensures
        well_grouped(group_runs(s)),
    decreases s.len(),
{
    if s.len() > 0 {
        let p = s.drop_last();
        lemma_groups_well_formed(p);
        let prev = group_runs(p);
        let x = s.last();
        let g = group_runs(s);
        if prev.len() > 0 && prev.last().0 == x.0.group {
            assert forall|i: int, j: int|
                0 <= i < g.len() && 0 <= j < g[i].1.len() implies (#[trigger] g[i].1[j]).0.group
                == g[i].0 by {
                if i < g.len() - 1 {
                    assert(g[i] == prev[i]);
                } else if j < prev.last().1.len() {
                    assert(g[i].1[j] == prev[i].1[j]);
                }
            }
            assert forall|i: int| 0 <= i < g.len() - 1 implies (#[trigger] g[i + 1]).0 != g[i].0 by {
                assert(g[i] == prev[i]);
                assert(g[i + 1].0 == prev[i + 1].0);
            }
            assert forall|i: int| 0 <= i < g.len() implies (#[trigger] g[i]).1.len() > 0 by {
                if i < g.len() - 1 {
                    assert(g[i] == prev[i]);
                }
            }
        } else {
            assert forall|i: int, j: int|
                0 <= i < g.len() && 0 <= j < g[i].1.len() implies (#[trigger] g[i].1[j]).0.group
                == g[i].0 by {
                if i < g.len() - 1 {
                    assert(g[i] == prev[i]);
                }
            }
            assert forall|i: int| 0 <= i < g.len() - 1 implies (#[trigger] g[i + 1]).0 != g[i].0 by {
                if i + 1 < g.len() - 1 {
                    assert(g[i + 1] == prev[i + 1]);
                }
                assert(g[i] == prev[i]);
            }
            assert forall|i: int| 0 <= i < g.len() implies (#[trigger] g[i]).1.len() > 0 by {
                if i < g.len() - 1 {
                    assert(g[i] == prev[i]);
                }
            }
        }
    }
}

/// Entries of one group stand together: no entry of another group lies
/// between two entries of the same group.
pub open spec fn groups_contiguous(s: Seq<(RouteView, Seq<char>)>) -> bool {
    forall|i: int, j: int, k: int|
        #![trigger s[i], s[j], s[k]]
        0 <= i < j < k < s.len() && s[i].0.group == s[k].0.group ==> s[j].0.group == s[i].0.group
}

/// No two groups share a name.
pub open spec fn group_names_distinct(g: Seq<(Seq<char>, Seq<(RouteView, Seq<char>)>)>) -> bool {
    forall|a: int, b: int| #![trigger g[a], g[b]] 0 <= a < b < g.len() ==> g[a].0 != g[b].0
}

proof fn lemma_last_group(p: Seq<(RouteView, Seq<char>)>)
    requires
        p.len() > 0,
    ensures
        group_runs(p).len() > 0,
        group_runs(p).last().0 == p.last().0.group,
{
}

/// An entry that carries the name of group `a`; it stands before the last
/// entry unless `a` is the last group.
proof fn group_witness(p: Seq<(RouteView, Seq<char>)>, a: int) -> (i: int)
    requires
        0 <= a < group_runs(p).len(),
    ensures
        0 <= i < p.len(),
        p[i].0.group == group_runs(p)[a].0,
        a < group_runs(p).len() - 1 ==> i < p.len() - 1,
    decreases p.len(),
{
    let q = p.drop_last();
    let gq = group_runs(q);
    let g = group_runs(p);
    let y = p.last();
    if gq.len() > 0 && gq.last().0 == y.0.group {
        if a < gq.len() - 1 {
            let i = group_witness(q, a);
            assert(p[i] == q[i]);
            assert(g[a] == gq[a]);
            i
        } else {
            p.len() - 1
        }
    } else {
        if a < gq.len() {
            let i = group_witness(q, a);
            assert(p[i] == q[i]);
            assert(g[a] == gq[a]);
            i
        } else {
            p.len() - 1
        }
    }
}

/// When the entries of each group stand together, every group name occurs
/// once among the groups.
pub proof fn lemma_group_names_distinct(s: Seq<(RouteView, Seq<char>)>)
    requires
        groups_contiguous(s),
    ensures
        group_names_distinct(group_runs(s)),
    decreases s.len(),
{
    if s.len() > 0 {
        let p = s.drop_last();
        assert(groups_contiguous(p)) by {
            assert forall|i: int, j: int, k: int|
                #![trigger p[i], p[j], p[k]]
                0 <= i < j < k < p.len() && p[i].0.group == p[k].0.group implies p[j].0.group
                == p[i].0.group by {
                assert(p[i] == s[i] && p[j] == s[j] && p[k] == s[k]);
            }
        }
        lemma_group_names_distinct(p);
        let prev = group_runs(p);
        let x = s.last();
        let g = group_runs(s);
        if prev.len() > 0 && prev.last().0 == x.0.group {
            assert forall|a: int, b: int| #![trigger g[a], g[b]] 0 <= a < b < g.len() implies g[a].0
                != g[b].0 by {
                assert(g[a].0 == prev[a].0);
                assert(g[b].0 == prev[b].0);
            }
        } else {
            assert forall|a: int, b: int| #![trigger g[a], g[b]] 0 <= a < b < g.len() implies g[a].0
                != g[b].0 by {
                assert(g[a] == prev[a]);
                if b < prev.len() {
                    assert(g[b] == prev[b]);
                } else if prev[a].0 == x.0.group {
                    let w = group_witness(p, a);
                    lemma_last_group(p);
                    let j = p.len() - 1;
                    let k = s.len() - 1;
                    assert(s[w] == p[w]);
                    assert(s[j] == p[j]);
                    assert(s[k] == x);
                    assert(s[j].0.group == s[w].0.group);
                }
            }
        }
    }
}

/// The entry at `i` comes from a route of `routes`.
proof fn entry_origin(routes: Seq<RouteView>, q: Seq<char>, icons: Map<Seq<char>, Seq<char>>, i: int) -> (m: int)
    requires
        0 <= i < board_entries(routes, q, icons).len(),
    ensures
        0 <= m < routes.len(),
        board_entries(routes, q, icons)[i].0 == routes[m],
    decreases routes.len(),
{
    let prev = board_entries(routes.drop_last(), q, icons);
    if i < prev.len() {
        let m = entry_origin(routes.drop_last(), q, icons, i);
        assert(board_entries(routes, q, icons)[i] == prev[i]);
        assert(routes[m] == routes.drop_last()[m]);
        m
    } else {
        routes.len() - 1
    }
}

proof fn lemma_entries_keep_order(routes: Seq<RouteView>, q: Seq<char>, icons: Map<Seq<char>, Seq<char>>)
    requires
        forall|i: int, j: int| 0 <= i < j < routes.len() ==> !route_before(routes[j], routes[i]),
    ensures
        forall|i: int, j: int|
            0 <= i < j < board_entries(routes, q, icons).len() ==> !route_before(
                board_entries(routes, q, icons)[j].0,
                board_entries(routes, q, icons)[i].0,
            ),
    decreases routes.len(),
{
    if routes.len() > 0 {
        let d = routes.drop_last();
        assert forall|i: int, j: int| 0 <= i < j < d.len() implies !route_before(d[j], d[i]) by {
            assert(d[i] == routes[i] && d[j] == routes[j]);
        }
        lemma_entries_keep_order(d, q, icons);
        let prev = board_entries(d, q, icons);
        let e = board_entries(routes, q, icons);
        assert forall|i: int, j: int| 0 <= i < j < e.len() implies !route_before(e[j].0, e[i].0) by {
            if j < prev.len() {
                assert(e[i] == prev[i] && e[j] == prev[j]);
            } else {
                assert(e[i] == prev[i]);
                let m = entry_origin(d, q, icons, i);
                assert(d[m] == routes[m]);
                assert(e[j].0 == routes[routes.len() - 1]);
            }
        }
    }
}

proof fn lemma_ordered_contiguous(e: Seq<(RouteView, Seq<char>)>)
    requires
        forall|i: int, j: int| 0 <= i < j < e.len() ==> !route_before(e[j].0, e[i].0),
    ensures
        groups_contiguous(e),
{
    assert forall|i: int, j: int, k: int|
        #![trigger e[i], e[j], e[k]]
        0 <= i < j < k < e.len() && e[i].0.group == e[k].0.group implies e[j].0.group
        == e[i].0.group by {
        assert(!route_before(e[j].0, e[i].0));
        assert(!route_before(e[k].0, e[j].0));
        lemma_text_lt_total(e[i].0.group, e[j].0.group);
    }
}

/// The groups so far: the finished groups, then the open one if any.
pub open spec fn open_groups(
    done: Seq<(Seq<char>, Seq<(RouteView, Seq<char>)>)>,
    has_cur: bool,
    name: Seq<char>,
    items: Seq<(RouteView, Seq<char>)>,
) -> Seq<(Seq<char>, Seq<(RouteView, Seq<char>)>)> {
    if has_cur {
        done.push((name, items))
    } else {
        done
    }
}

/// A copy of a (route, icon) entry.
fn copy_entry(e: &(Route, String)) -> (r: (Route, String))
    ensures
        (r.0@, r.1@) == (e.0@, e.1@),
{
    (e.0.duplicate(), e.1.clone())
}

/// Partitions (route, icon) entries, already sorted, into `(group, entries)`
/// pairs; the order of groups follows their first occurrence.
pub fn group_routes_with_icons(items: Vec<(Route, String)>) -> (g: Vec<(String, Vec<(Route, String)>)>)
    ensures
        group_views(g@) == group_runs(entry_views(items@)),
{
    let ghost all = entry_views(items@);
    let mut done: Vec<(String, Vec<(Route, String)>)> = Vec::new();
    let mut has_cur = false;
    let mut cur_name = String::new();
    let mut cur_items: Vec<(Route, String)> = Vec::new();
    let mut i: usize = 0;
    assert(all.subrange(0, 0) =~= Seq::<(RouteView, Seq<char>)>::empty());
    assert(group_views(done@) =~= Seq::<(Seq<char>, Seq<(RouteView, Seq<char>)>)>::empty());
    while i < items.len()
        invariant
            all == entry_views(items@),
            i <= items.len(),
            open_groups(group_views(done@), has_cur, cur_name@, entry_views(cur_items@))
                == group_runs(all.subrange(0, i as int)),
            has_cur || group_views(done@).len() == 0,
        decreases items.len() - i,
    {
        let e = copy_entry(&items[i]);
        let ghost pre = all.subrange(0, i as int);
        let ghost next = all.subrange(0, i + 1);
        assert(next.drop_last() =~= pre);
        assert(next.last() == all[i as int]);
        assert((e.0@, e.1@) == all[i as int]);
        let ghost prev = group_runs(pre);
        let same = has_cur && crate::text::chars_eq(
            &chars_of(cur_name.as_str()),
            &chars_of(e.0.group.as_str()),
        );
        if same {
            let ghost before = entry_views(cur_items@);
            cur_items.push(e);
            assert(entry_views(cur_items@) =~= before.push(all[i as int]));
        } else {
            if has_cur {
                let ghost gd = group_views(done@);
                let finished_items = cur_items;
                let finished_name = cur_name;
                let ghost fv = (finished_name@, entry_views(finished_items@));
                done.push((finished_name, finished_items));
                assert(group_views(done@) =~= gd.push(fv));
            }
            cur_name = e.0.group.clone();
            cur_items = Vec::new();
            let ghost ev = (e.0@, e.1@);
            cur_items.push(e);
            assert(entry_views(cur_items@) =~= seq![ev]);
            has_cur = true;
        }
        i = i + 1;
    }
    assert(all.subrange(0, items.len() as int) =~= all);
    if has_cur {
        let ghost gd = group_views(done@);
        let ghost fv = (cur_name@, entry_views(cur_items@));
        done.push((cur_name, cur_items));
        assert(group_views(done@) =~= gd.push(fv));
    }
    done
}

/// The board for a search: the stored routes in listing order, filtered to
/// those shown for `query` (trimmed, then lowercased), each with its icon,
/// grouped by consecutive group.
pub open spec fn board_spec(
    routes: Seq<RouteView>,
    query: Seq<char>,
    icons: Map<Seq<char>, Seq<char>>,
) -> Seq<(Seq<char>, Seq<(RouteView, Seq<char>)>)> {
    group_runs(board_entries(sort_routes(routes), lowercase_of(trim(query)), icons))
}

/// Whether route `r` is shown for the prepared search text `q`.
fn is_shown(r: &Route, q: &Vec<char>) -> (b: bool)
    ensures
        b == shown(r@, q@),
{
    if r.hidden {
        return false;
    }
    if q.len() == 0 {
        return true;
    }
    let name = chars_of(to_lowercase(r.name.as_str()).as_str());
    if contains(&name, q) {
        return true;
    }
    let title = chars_of(to_lowercase(r.display_title()).as_str());
    if contains(&title, q) {
        return true;
    }
    let desc = chars_of(to_lowercase(r.description.as_str()).as_str());
    contains(&desc, q)
}

/// Filters (hidden routes and the search), resolves icons, and groups the
/// stored routes for rendering.
pub fn build_groups(store: &Store, icons: &IconIndex, query: &str) -> (g: Vec<
    (String, Vec<(Route, String)>),
>)
    ensures
        group_views(g@) == board_spec(store@, query@, icons@),
{
    let trimmed = string_of(&trim_chars(&chars_of(query)));
    let q = chars_of(to_lowercase(trimmed.as_str()).as_str());
    let routes = store.list();
    let ghost rv = crate::store::route_views(routes@);
    let mut items: Vec<(Route, String)> = Vec::new();
    let mut i: usize = 0;
    assert(rv.subrange(0, 0) =~= Seq::<RouteView>::empty());
    assert(entry_views(items@) =~= Seq::<(RouteView, Seq<char>)>::empty());
    while i < routes.len()
        invariant
            rv == crate::store::route_views(routes@),
            i <= routes.len(),
            entry_views(items@) == board_entries(rv.subrange(0, i as int), q@, icons@),
        decreases routes.len() - i,
    {
        let r = &routes[i];
        let ghost pre = rv.subrange(0, i as int);
        assert(rv.subrange(0, i + 1).drop_last() =~= pre);
        assert(rv.subrange(0, i + 1).last() == r@);
        if is_shown(r, &q) {
            let icon = card_icon(icons, r);
            let ghost before = entry_views(items@);
            let e = (r.duplicate(), icon);
            let ghost ev = (e.0@, e.1@);
            items.push(e);
            assert(entry_views(items@) =~= before.push(ev));
        }
        i = i + 1;
    }
    assert(rv.subrange(0, routes.len() as int) =~= rv);
    group_routes_with_icons(items)
}

/// Every group appears once on the board: the routes of a group stand
/// together, so no group name is repeated.
pub proof fn lemma_board_groups_distinct(
    routes: Seq<RouteView>,
    query: Seq<char>,
    icons: Map<Seq<char>, Seq<char>>,
)
    ensures
        group_names_distinct(board_spec(routes, query, icons)),
{
    let sorted = sort_routes(routes);
    let q = lowercase_of(trim(query));
    lemma_sort_routes_sorted(routes);
    lemma_entries_keep_order(sorted, q, icons);
    lemma_ordered_contiguous(board_entries(sorted, q, icons));
    lemma_group_names_distinct(board_entries(sorted, q, icons));
}

/// The search: a hidden route is never shown; a visible route is shown for
/// an empty search, and for a search contained in its lowercased name,
/// display title or description; a visible route matching none of the three
/// is not shown for a non-empty search.
pub proof fn lemma_search_matches(r: RouteView, q: Seq<char>)
    ensures
        r.hidden ==> !shown(r, q),
        !r.hidden && q.len() == 0 ==> shown(r, q),
        !r.hidden && contains_seq(lowercase_of(r.name), q) ==> shown(r, q),
        !r.hidden && contains_seq(lowercase_of(r.display_title()), q) ==> shown(r, q),
        !r.hidden && contains_seq(lowercase_of(r.description), q) ==> shown(r, q),
        q.len() > 0 && !contains_seq(lowercase_of(r.name), q) && !contains_seq(
            lowercase_of(r.display_title()),
            q,
        ) && !contains_seq(lowercase_of(r.description), q) ==> !shown(r, q),
{
}

proof fn lemma_entries_include(
    routes: Seq<RouteView>,
    q: Seq<char>,
    icons: Map<Seq<char>, Seq<char>>,
    m: int,
)
    requires
        0 <= m < routes.len(),
        shown(routes[m], q),
    ensures
        board_entries(routes, q, icons).contains((routes[m], icon_text(icons, routes[m]))),
    decreases routes.len(),
{
    let e = board_entries(routes, q, icons);
    let prev = board_entries(routes.drop_last(), q, icons);
    if m < routes.len() - 1 {
        assert(routes.drop_last()[m] == routes[m]);
        lemma_entries_include(routes.drop_last(), q, icons, m);
        let k = choose|k: int|
            0 <= k < prev.len() && prev[k] == (routes[m], icon_text(icons, routes[m]));
        assert(e[k] == prev[k]);
    } else {
        assert(e[e.len() - 1] == (routes[m], icon_text(icons, routes[m])));
    }
}

/// A stored route that is not hidden and whose lowercased name, display
/// title or description contains the trimmed, lowercased search (or any
/// visible route, for an empty search) is on the board, with its icon.
pub proof fn lemma_board_shows_matches(
    routes: Seq<RouteView>,
    query: Seq<char>,
    icons: Map<Seq<char>, Seq<char>>,
    r: RouteView,
)
    requires
        routes.contains(r),
        !r.hidden,
        ({
            let q = lowercase_of(trim(query));
            q.len() == 0 || contains_seq(lowercase_of(r.name), q) || contains_seq(
                lowercase_of(r.display_title()),
                q,
            ) || contains_seq(lowercase_of(r.description), q)
        }),
    ensures
        flatten_groups(board_spec(routes, query, icons)).contains((r, icon_text(icons, r))),
{
    broadcast use vstd::seq_lib::group_to_multiset_ensures;

    let q = lowercase_of(trim(query));
    let sorted = sort_routes(routes);
    lemma_sort_routes_permutation(routes);
    assert(routes.to_multiset().count(r) > 0);
    assert(sorted.contains(r));
    let m = choose|m: int| 0 <= m < sorted.len() && sorted[m] == r;
    lemma_search_matches(r, q);
    lemma_entries_include(sorted, q, icons, m);
    lemma_groups_flatten(board_entries(sorted, q, icons));
}

/// Hidden routes never reach the board.
pub proof fn lemma_board_hides_hidden(
    routes: Seq<RouteView>,
    query: Seq<char>,
    icons: Map<Seq<char>, Seq<char>>,
)
    ensures
        forall|i: int|
            0 <= i < flatten_groups(board_spec(routes, query, icons)).len() ==> !(
            #[trigger] flatten_groups(board_spec(routes, query, icons))[i]).0.hidden,
{
    let e = board_entries(sort_routes(routes), lowercase_of(trim(query)), icons);
    lemma_groups_flatten(e);
    lemma_entries_shown(sort_routes(routes), lowercase_of(trim(query)), icons);
}

proof fn lemma_entries_shown(routes: Seq<RouteView>, q: Seq<char>, icons: Map<Seq<char>, Seq<char>>)
    ensures
        forall|i: int|
            0 <= i < board_entries(routes, q, icons).len() ==> shown(
                (#[trigger] board_entries(routes, q, icons)[i]).0,
                q,
            ),
    decreases routes.len(),
{
    if routes.len() > 0 {
        lemma_entries_shown(routes.drop_last(), q, icons);
        let prev = board_entries(routes.drop_last(), q, icons);
        assert forall|i: int|
            0 <= i < board_entries(routes, q, icons).len() implies shown(
            (#[trigger] board_entries(routes, q, icons)[i]).0,
            q,
        ) by {
            if i < prev.len() {
                assert(board_entries(routes, q, icons)[i] == prev[i]);
            }
        }
    }
}

/// The content type served for an asset path, by its extension.
pub open spec fn mime_spec(path: Seq<char>) -> Seq<char> {
    if has_suffix(path, ".css"@) {
        "text/css; charset=utf-8"@
    } else if has_suffix(path, ".js"@) {
        "application/javascript; charset=utf-8"@
    } else if has_suffix(path, ".html"@) || has_suffix(path, ".htm"@) {
        "text/html; charset=utf-8"@
    } else if has_suffix(path, ".png"@) {
        "image/png"@
    } else if has_suffix(path, ".svg"@) {
        "image/svg+xml"@
    } else if has_suffix(path, ".ico"@) {
        "image/x-icon"@
    } else {
        "application/octet-stream"@
    }
}

proof fn lemma_suffix_char(s: Seq<char>, p: Seq<char>, k: int)
    requires
        has_suffix(s, p),
        0 <= k < p.len(),
    ensures
        s[s.len() - p.len() + k] == p[k],
{
    assert(s.subrange(s.len() - p.len(), s.len() as int)[k] == p[k]);
}

/// Each asset extension is served with its content type: `.css`, `.js`,
/// `.html`/`.htm`, `.png`, `.svg` and `.ico`; anything else is served as
/// `application/octet-stream`.
pub proof fn lemma_mime_table(path: Seq<char>)
    ensures
        has_suffix(path, ".css"@) ==> mime_spec(path) == "text/css; charset=utf-8"@,
        has_suffix(path, ".js"@) ==> mime_spec(path) == "application/javascript; charset=utf-8"@,
        has_suffix(path, ".html"@) ==> mime_spec(path) == "text/html; charset=utf-8"@,
        has_suffix(path, ".htm"@) ==> mime_spec(path) == "text/html; charset=utf-8"@,
        has_suffix(path, ".png"@) ==> mime_spec(path) == "image/png"@,
        has_suffix(path, ".svg"@) ==> mime_spec(path) == "image/svg+xml"@,
        has_suffix(path, ".ico"@) ==> mime_spec(path) == "image/x-icon"@,
        !has_suffix(path, ".css"@) && !has_suffix(path, ".js"@) && !has_suffix(path, ".html"@)
            && !has_suffix(path, ".htm"@) && !has_suffix(path, ".png"@) && !has_suffix(path, ".svg"@)
            && !has_suffix(path, ".ico"@) ==> mime_spec(path) == "application/octet-stream"@,
{
    reveal_strlit(".css");
    reveal_strlit(".htm");
    reveal_strlit(".html");
    reveal_strlit(".ico");
    reveal_strlit(".js");
    reveal_strlit(".png");
    reveal_strlit(".svg");
    if has_suffix(path, ".css"@) {

    }
    if has_suffix(path, ".js"@) {
        if has_suffix(path, ".css"@) {
            lemma_suffix_char(path, ".css"@, 2);
            lemma_suffix_char(path, ".js"@, 1);
        }
    }
    if has_suffix(path, ".html"@) {
        if has_suffix(path, ".css"@) {
            lemma_suffix_char(path, ".css"@, 3);
            lemma_suffix_char(path, ".html"@, 4);
        }
        if has_suffix(path, ".js"@) {
            lemma_suffix_char(path, ".js"@, 2);
            lemma_suffix_char(path, ".html"@, 4);
        }
    }
    if has_suffix(path, ".htm"@) {
        if has_suffix(path, ".css"@) {
            lemma_suffix_char(path, ".css"@, 3);
            lemma_suffix_char(path, ".htm"@, 3);
        }
        if has_suffix(path, ".js"@) {
            lemma_suffix_char(path, ".js"@, 2);
            lemma_suffix_char(path, ".htm"@, 3);
        }
        if has_suffix(path, ".html"@) {
            lemma_suffix_char(path, ".html"@, 4);
            lemma_suffix_char(path, ".htm"@, 3);
        }
    }
    if has_suffix(path, ".png"@) {
        if has_suffix(path, ".css"@) {
            lemma_suffix_char(path, ".css"@, 3);
            lemma_suffix_char(path, ".png"@, 3);
        }
        if has_suffix(path, ".js"@) {
            lemma_suffix_char(path, ".js"@, 2);
            lemma_suffix_char(path, ".png"@, 3);
        }
        if has_suffix(path, ".html"@) {
            lemma_suffix_char(path, ".html"@, 4);
            lemma_suffix_char(path, ".png"@, 3);
        }
        if has_suffix(path, ".htm"@) {
            lemma_suffix_char(path, ".htm"@, 3);
            lemma_suffix_char(path, ".png"@, 3);
        }
    }
    if has_suffix(path, ".svg"@) {
        if has_suffix(path, ".css"@) {
            lemma_suffix_char(path, ".css"@, 3);
            lemma_suffix_char(path, ".svg"@, 3);
        }
        if has_suffix(path, ".js"@) {
            lemma_suffix_char(path, ".js"@, 2);
            lemma_suffix_char(path, ".svg"@, 3);
        }
        if has_suffix(path, ".html"@) {
            lemma_suffix_char(path, ".html"@, 4);
            lemma_suffix_char(path, ".svg"@, 3);
        }
        if has_suffix(path, ".htm"@) {
            lemma_suffix_char(path, ".htm"@, 3);
            lemma_suffix_char(path, ".svg"@, 3);
        }
        if has_suffix(path, ".png"@) {
            lemma_suffix_char(path, ".png"@, 2);
            lemma_suffix_char(path, ".svg"@, 2);
        }
    }
    if has_suffix(path, ".ico"@) {
        if has_suffix(path, ".css"@) {
            lemma_suffix_char(path, ".css"@, 3);
            lemma_suffix_char(path, ".ico"@, 3);
        }
        if has_suffix(path, ".js"@) {
            lemma_suffix_char(path, ".js"@, 2);
            lemma_suffix_char(path, ".ico"@, 3);
        }
        if has_suffix(path, ".html"@) {
            lemma_suffix_char(path, ".html"@, 4);
            lemma_suffix_char(path, ".ico"@, 3);
        }
        if has_suffix(path, ".htm"@) {
            lemma_suffix_char(path, ".htm"@, 3);
            lemma_suffix_char(path, ".ico"@, 3);
        }
        if has_suffix(path, ".png"@) {
            lemma_suffix_char(path, ".png"@, 3);
            lemma_suffix_char(path, ".ico"@, 3);
        }
        if has_suffix(path, ".svg"@) {
            lemma_suffix_char(path, ".svg"@, 3);
            lemma_suffix_char(path, ".ico"@, 3);
        }
    }
}

/// The content type of an embedded asset.
pub fn mime_type(path: &str) -> (m: &'static str)
    ensures
        m@ == mime_spec(path@),
{
    let p = chars_of(path);
    if ends_with(&p, &chars_of(".css")) {
        "text/css; charset=utf-8"
    } else if ends_with(&p, &chars_of(".js")) {
        "application/javascript; charset=utf-8"
    } else if ends_with(&p, &chars_of(".html")) || ends_with(&p, &chars_of(".htm")) {
        "text/html; charset=utf-8"
    } else if ends_with(&p, &chars_of(".png")) {
        "image/png"
    } else if ends_with(&p, &chars_of(".svg")) {
        "image/svg+xml"
    } else if ends_with(&p, &chars_of(".ico")) {
        "image/x-icon"
    } else {
        "application/octet-stream"
    }
}

} // verus!
