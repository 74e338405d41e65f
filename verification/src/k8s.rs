//! Discovery: what a Gateway API `HTTPRoute` becomes on the board, which
//! namespaces are watched, and what each watch event does to the store.
use vstd::prelude::*;

use crate::config::Config;
use crate::model::{annotated, Annotations, Route, RouteView};
use crate::text::{chars_eq, chars_of, string_views};

verus! {

/// One match of an `HTTPRoute` rule: the value of its path, when it has one.
pub struct PathMatch {
    pub path: Option<String>,
}

/// One rule of an `HTTPRoute`: its matches, when listed.
pub struct RouteRule {
    pub matches: Option<Vec<PathMatch>>,
}

/// What discovery reads from an `HTTPRoute`: its metadata and spec fields.
pub struct HttpRouteInfo {
    pub namespace: Option<String>,
    pub name: Option<String>,
    pub annotations: Option<Annotations>,
    pub hostnames: Option<Vec<String>>,
    pub rules: Option<Vec<RouteRule>>,
}

/// The text of an optional string, or the empty text.
pub open spec fn text_or_empty(s: Option<String>) -> Seq<char> {
    match s {
        Some(t) => t@,
        None => Seq::empty(),
    }
}

/// The path of the first match of the first rule, or `/`.
pub open spec fn first_path(rules: Option<Vec<RouteRule>>) -> Seq<char> {
    match rules {
        Some(rs) => if rs@.len() > 0 {
            match rs@[0].matches {
                Some(ms) => if ms@.len() > 0 {
                    match ms@[0].path {
                        Some(p) => p@,
                        None => "/"@,
                    }
                } else {
                    "/"@
                },
                None => "/"@,
            }
        } else {
            "/"@
        },
        None => "/"@,
    }
}

/// The path values of a list of matches, in order.
pub open spec fn match_paths(ms: Seq<PathMatch>) -> Seq<Seq<char>>
    decreases ms.len(),
{
    if ms.len() == 0 {
        Seq::empty()
    } else {
        let prev = match_paths(ms.drop_last());
        match ms.last().path {
            Some(p) => prev.push(p@),
            None => prev,
        }
    }
}

/// The path values of every match of every rule, in order.
pub open spec fn rule_paths(rs: Seq<RouteRule>) -> Seq<Seq<char>>
    decreases rs.len(),
{
    if rs.len() == 0 {
        Seq::empty()
    } else {
        rule_paths(rs.drop_last()) + match rs.last().matches {
            Some(ms) => match_paths(ms@),
            None => Seq::empty(),
        }
    }
}

/// The hostnames of the route.
pub open spec fn host_list(h: Option<Vec<String>>) -> Seq<Seq<char>> {
    match h {
        Some(v) => string_views(v@),
        None => Seq::empty(),
    }
}

/// `https://{first host}{first path}`, or empty when there is no host.
pub open spec fn derived_url(hr: HttpRouteInfo) -> Seq<char> {
    let hosts = host_list(hr.hostnames);
    if hosts.len() == 0 || hosts[0].len() == 0 {
        Seq::empty()
    } else {
        "https://"@ + hosts[0] + first_path(hr.rules)
    }
}

/// The id of a route: `{namespace}/{name}`.
pub open spec fn route_id(namespace: Seq<char>, name: Seq<char>) -> Seq<char> {
    namespace + "/"@ + name
}

/// The route before annotations: id, name, namespace, derived URL, hosts,
/// paths, and the namespace as group; everything else empty.
pub open spec fn base_route(hr: HttpRouteInfo) -> RouteView {
    let ns = text_or_empty(hr.namespace);
    let name = text_or_empty(hr.name);
    RouteView {
        id: route_id(ns, name),
        name: name,
        namespace: ns,
        url: derived_url(hr),
        hosts: host_list(hr.hostnames),
        paths: match hr.rules {
            Some(rs) => rule_paths(rs@),
            None => Seq::empty(),
        },
        group: ns,
        ..RouteView::empty()
    }
}

/// The route that an `HTTPRoute` becomes: the base route with the
/// `routecrab.io/*` annotations applied.
pub open spec fn route_from_spec(hr: HttpRouteInfo) -> RouteView {
    match hr.annotations {
        Some(a) => annotated(base_route(hr), a@),
        None => base_route(hr),
    }
}

/// A copy of an optional string, or the empty string.
fn owned_or_empty(s: &Option<String>) -> (r: String)
    ensures
        r@ == text_or_empty(*s),
{
    match s {
        Some(t) => t.clone(),
        None => String::new(),
    }
}

fn first_path_of(rules: &Option<Vec<RouteRule>>) -> (r: String)
    ensures
        r@ == first_path(*rules),
{
    if let Some(rs) = rules {
        if rs.len() > 0 {
            if let Some(ms) = &rs[0].matches {
                if ms.len() > 0 {
                    if let Some(p) = &ms[0].path {
                        return p.clone();
                    }
                }
            }
        }
    }
    String::from_str("/")
}

fn paths_of_matches(ms: &Vec<PathMatch>, out: &mut Vec<String>)
    ensures
        string_views(final(out)@) == string_views(old(out)@) + match_paths(ms@),
{
    let mut i: usize = 0;
    assert(ms@.subrange(0, 0) =~= Seq::<PathMatch>::empty());
    assert(string_views(out@) =~= string_views(old(out)@) + match_paths(ms@.subrange(0, 0)));
    while i < ms.len()
        invariant
            i <= ms.len(),
            string_views(out@) == string_views(old(out)@) + match_paths(ms@.subrange(0, i as int)),
        decreases ms.len() - i,
    {
        assert(ms@.subrange(0, i + 1).drop_last() =~= ms@.subrange(0, i as int));
        assert(ms@.subrange(0, i + 1).last() == ms@[i as int]);
        if let Some(p) = &ms[i].path {
            let ghost before = string_views(out@);
            out.push(p.clone());
            assert(string_views(out@) =~= before.push(p@));
            assert(string_views(out@) =~= string_views(old(out)@) + match_paths(
                ms@.subrange(0, i + 1),
            ));
        }
        i = i + 1;
    }
    assert(ms@.subrange(0, ms.len() as int) =~= ms@);
}

fn paths_of_rules(rules: &Option<Vec<RouteRule>>) -> (r: Vec<String>)
    ensures
        string_views(r@) == match *rules {
            Some(rs) => rule_paths(rs@),
            None => Seq::empty(),
        },
{
    let mut out: Vec<String> = Vec::new();
    assert(string_views(out@) =~= Seq::<Seq<char>>::empty());
    if let Some(rs) = rules {
        let mut i: usize = 0;
        assert(rs@.subrange(0, 0) =~= Seq::<RouteRule>::empty());
        while i < rs.len()
            invariant
                i <= rs.len(),
                string_views(out@) == rule_paths(rs@.subrange(0, i as int)),
            decreases rs.len() - i,
        {
            assert(rs@.subrange(0, i + 1).drop_last() =~= rs@.subrange(0, i as int));
            assert(rs@.subrange(0, i + 1).last() == rs@[i as int]);
            if let Some(ms) = &rs[i].matches {
                paths_of_matches(ms, &mut out);
            } else {
                assert(string_views(out@) =~= rule_paths(rs@.subrange(0, i as int))
                    + Seq::<Seq<char>>::empty());
            }
            i = i + 1;
        }
        assert(rs@.subrange(0, rs.len() as int) =~= rs@);
    }
    out
}

fn hosts_of(h: &Option<Vec<String>>) -> (r: Vec<String>)
    ensures
        string_views(r@) == host_list(*h),
{
    match h {
        Some(v) => crate::model::copy_strings(v),
        None => {
            let r: Vec<String> = Vec::new();
            assert(string_views(r@) =~= Seq::<Seq<char>>::empty());
            r
        },
    }
}

/// Joins three texts.
fn join3(a: &str, b: &str, c: &str) -> (r: String)
    ensures
        r@ == a@ + b@ + c@,
{
    let r = String::from_str(a);
    let r = r.concat(b);
    r.concat(c)
}

/// Maps an `HTTPRoute` to a board route: the id is `{namespace}/{name}`, the
/// hosts are the spec's hostnames, the URL is `https://{first host}{first
/// path}` (empty without a host), the paths are every match path, the group
/// defaults to the namespace, and the `routecrab.io/*` annotations apply last.
pub fn route_from_httproute(hr: &HttpRouteInfo) -> (r: Route)
    ensures
        r@ == route_from_spec(*hr),
{
    let ns = owned_or_empty(&hr.namespace);
    let name = owned_or_empty(&hr.name);
    let id = join3(ns.as_str(), "/", name.as_str());
    let hosts = hosts_of(&hr.hostnames);
    let first_path = first_path_of(&hr.rules);
    let url = if hosts.len() == 0 || crate::model::is_empty_text(hosts[0].as_str()) {
        String::new()
    } else {
        join3("https://", hosts[0].as_str(), first_path.as_str())
    };
    let paths = paths_of_rules(&hr.rules);
    let mut route = Route::default();
    route.id = id;
    route.name = name;
    route.namespace = ns.clone();
    route.url = url;
    route.hosts = hosts;
    route.paths = paths;
    route.group = ns;
    assert(route@ == base_route(*hr));
    if let Some(ann) = &hr.annotations {
        route.apply_annotations(ann);
    }
    route
}

/// Annotations never change a route's id: a `Delete` event removes exactly
/// the id under which the `Apply` event of the same resource stored it.
pub proof fn lemma_delete_matches_apply(hr: HttpRouteInfo)
    ensures
        route_from_spec(hr).id == route_id(text_or_empty(hr.namespace), text_or_empty(hr.name)),
{
}

/// A freshly discovered route has unknown health until the prober reports;
/// annotations cannot set it.
pub proof fn lemma_discovered_health_unknown(hr: HttpRouteInfo)
    ensures
        route_from_spec(hr).health == crate::model::HealthStatus::Unknown,
{
}

// ---------------------------------------------------------------------------
// Namespace filtering
// ---------------------------------------------------------------------------

/// A discovered route is identified as `{namespace}/{name}`, is named after
/// the `HTTPRoute`, lives in its namespace, lists its hosts, and links to
/// `https://` + its first host + its first path when it has a host (without
/// annotations, its group is its namespace and its URL is that link).
pub proof fn lemma_discovered_route(hr: HttpRouteInfo)
    ensures
        route_from_spec(hr).id == text_or_empty(hr.namespace) + "/"@ + text_or_empty(hr.name),
        route_from_spec(hr).name == text_or_empty(hr.name),
        route_from_spec(hr).namespace == text_or_empty(hr.namespace),
        route_from_spec(hr).hosts == host_list(hr.hostnames),
        hr.annotations is None ==> route_from_spec(hr).group == text_or_empty(hr.namespace),
        hr.annotations is None && host_list(hr.hostnames).len() > 0 && host_list(
            hr.hostnames,
        )[0].len() > 0 ==> route_from_spec(hr).url == "https://"@ + host_list(hr.hostnames)[0]
            + first_path(hr.rules),
        hr.annotations is None && (host_list(hr.hostnames).len() == 0 || host_list(
            hr.hostnames,
        )[0].len() == 0) ==> route_from_spec(hr).url.len() == 0,
{
}

/// Deny wins; a non-empty allowlist must list the namespace; an empty
/// allowlist allows every namespace that is not denied.
pub open spec fn namespace_allowed_spec(
    ns: Seq<char>,
    allow: Seq<Seq<char>>,
    deny: Seq<Seq<char>>,
) -> bool {
    !deny.contains(ns) && (allow.len() == 0 || allow.contains(ns))
}

/// Whether the list holds the text.
fn lists(list: &Vec<String>, ns: &Vec<char>) -> (r: bool)
    ensures
        r == string_views(list@).contains(ns@),
{
    let mut i: usize = 0;
    while i < list.len()
        invariant
            i <= list.len(),
            forall|k: int| 0 <= k < i ==> string_views(list@)[k] != ns@,
        decreases list.len() - i,
    {
        let item = chars_of(list[i].as_str());
        if chars_eq(&item, ns) {
            assert(string_views(list@)[i as int] == ns@);
            return true;
        }
        i = i + 1;
    }
    false
}

/// Whether routes of namespace `ns` are kept under the configured lists.
pub fn namespace_allowed(ns: &str, cfg: &Config) -> (r: bool)
    ensures
        r == namespace_allowed_spec(
            ns@,
            string_views(cfg.namespace_allowlist@),
            string_views(cfg.namespace_denylist@),
        ),
        string_views(cfg.namespace_denylist@).contains(ns@) ==> !r,
        !string_views(cfg.namespace_denylist@).contains(ns@) && string_views(
            cfg.namespace_allowlist@,
        ).contains(ns@) ==> r,
        !string_views(cfg.namespace_denylist@).contains(ns@) && cfg.namespace_allowlist.len() == 0
            ==> r,
        cfg.namespace_allowlist.len() > 0 && !string_views(cfg.namespace_allowlist@).contains(ns@)
            ==> !r,
{
    proof {
        lemma_namespace_rules(
            ns@,
            string_views(cfg.namespace_allowlist@),
            string_views(cfg.namespace_denylist@),
        );
    }
    let n = chars_of(ns);
    if lists(&cfg.namespace_denylist, &n) {
        return false;
    }
    if cfg.namespace_allowlist.len() != 0 && !lists(&cfg.namespace_allowlist, &n) {
        return false;
    }
    true
}

/// The namespace filter: a namespace that the allowlist lists and the
/// denylist does not is kept; with an empty allowlist every namespace that is
/// not denied is kept; a non-empty allowlist that does not list the
/// namespace drops it; a denied namespace is dropped.
pub proof fn lemma_namespace_rules(ns: Seq<char>, allow: Seq<Seq<char>>, deny: Seq<Seq<char>>)
    ensures
        allow.contains(ns) && !deny.contains(ns) ==> namespace_allowed_spec(ns, allow, deny),
        allow.len() == 0 && !deny.contains(ns) ==> namespace_allowed_spec(ns, allow, deny),
        allow.len() > 0 && !allow.contains(ns) ==> !namespace_allowed_spec(ns, allow, deny),
        deny.contains(ns) ==> !namespace_allowed_spec(ns, allow, deny),
{
}

/// Deny takes priority: a denied namespace is refused whatever the allowlist holds.
pub proof fn lemma_deny_wins(ns: Seq<char>, allow: Seq<Seq<char>>, deny: Seq<Seq<char>>)
    requires
        deny.contains(ns),
    ensures
        !namespace_allowed_spec(ns, allow, deny),
{
}

// ---------------------------------------------------------------------------
// Watch events
// ---------------------------------------------------------------------------

/// An event of the `HTTPRoute` watcher.
pub enum WatchEvent {
    Apply(HttpRouteInfo),
    InitApply(HttpRouteInfo),
    Delete(HttpRouteInfo),
    Init,
    InitDone,
}

/// What the store has to do for a watch event.
pub enum WatchAction {
    Upsert(Route),
    Remove(String),
    Ignore,
}

/// The action a watch event calls for: applied routes of allowed namespaces
/// are upserted, deleted routes of allowed namespaces are removed by id, and
/// everything else (other namespaces, relist markers) is ignored.
pub open spec fn watch_action_ok(event: WatchEvent, cfg: Config, action: WatchAction) -> bool {
    let allowed = |hr: HttpRouteInfo|
        namespace_allowed_spec(
            text_or_empty(hr.namespace),
            string_views(cfg.namespace_allowlist@),
            string_views(cfg.namespace_denylist@),
        );
    match event {
        WatchEvent::Apply(hr) | WatchEvent::InitApply(hr) => if allowed(hr) {
            action matches WatchAction::Upsert(r) && r@ == route_from_spec(hr)
        } else {
            action is Ignore
        },
        WatchEvent::Delete(hr) => if allowed(hr) {
            action matches WatchAction::Remove(id) && id@ == route_id(
                text_or_empty(hr.namespace),
                text_or_empty(hr.name),
            )
        } else {
            action is Ignore
        },
        WatchEvent::Init | WatchEvent::InitDone => action is Ignore,
    }
}

/// Decides what one watch event does to the store.
pub fn watch_step(event: &WatchEvent, cfg: &Config) -> (a: WatchAction)
    ensures
        watch_action_ok(*event, *cfg, a),
{
    match event {
        WatchEvent::Apply(hr) | WatchEvent::InitApply(hr) => {
            let ns = owned_or_empty(&hr.namespace);
            if !namespace_allowed(ns.as_str(), cfg) {
                return WatchAction::Ignore;
            }
            WatchAction::Upsert(route_from_httproute(hr))
        },
        WatchEvent::Delete(hr) => {
            let ns = owned_or_empty(&hr.namespace);
            if !namespace_allowed(ns.as_str(), cfg) {
                return WatchAction::Ignore;
            }
            let name = owned_or_empty(&hr.name);
            WatchAction::Remove(join3(ns.as_str(), "/", name.as_str()))
        },
        WatchEvent::Init | WatchEvent::InitDone => WatchAction::Ignore,
    }
}

} // verus!
