//! Routes, their health, and the `routecrab.io/*` annotations that shape them.
use vstd::prelude::*;

use crate::text::{
    ascii_lower, ascii_lowercase, chars_of, has_prefix, lookup_pair, pair_views, pairs_map,
    parse_i32, parse_i32_spec, starts_with, str_eq, string_views, trim, trim_chars,
};

verus! {

/// The health of a route as last observed by the prober.
#[derive(Clone, Copy, Debug, PartialEq, Eq, Structural)]
pub enum HealthStatus {
    Unknown,
    Healthy,
    Degraded,
    Unhealthy,
}

impl HealthStatus {
    /// The lowercase name used when the status is displayed or serialised.
    pub fn as_str(&self) -> (s: &'static str)
        ensures
            s@ == self.name(),
    {
        match self {
            HealthStatus::Unknown => "unknown",
            HealthStatus::Healthy => "healthy",
            HealthStatus::Degraded => "degraded",
            HealthStatus::Unhealthy => "unhealthy",
        }
    }

    pub open spec fn name(self) -> Seq<char> {
        match self {
            HealthStatus::Unknown => "unknown"@,
            HealthStatus::Healthy => "healthy"@,
            HealthStatus::Degraded => "degraded"@,
            HealthStatus::Unhealthy => "unhealthy"@,
        }
    }
}

impl Default for HealthStatus {
    fn default() -> (h: HealthStatus)
        ensures
            h == HealthStatus::Unknown,
    {
        HealthStatus::Unknown
    }
}

/// A dashboard entry, discovered from one `HTTPRoute`.
#[derive(Clone, Debug)]
pub struct Route {
    pub id: String,
    pub name: String,
    pub namespace: String,
    pub url: String,
    pub health_url: String,
    pub health_path: String,
    pub title: String,
    pub description: String,
    pub group: String,
    pub icon: String,
    pub order: i32,
    pub hidden: bool,
    pub monitor_disabled: bool,
    pub hosts: Vec<String>,
    pub paths: Vec<String>,
    pub health: HealthStatus,
}

/// The value of a [`Route`]: its text fields as character sequences.
pub struct RouteView {
    pub id: Seq<char>,
    pub name: Seq<char>,
    pub namespace: Seq<char>,
    pub url: Seq<char>,
    pub health_url: Seq<char>,
    pub health_path: Seq<char>,
    pub title: Seq<char>,
    pub description: Seq<char>,
    pub group: Seq<char>,
    pub icon: Seq<char>,
    pub order: i32,
    pub hidden: bool,
    pub monitor_disabled: bool,
    pub hosts: Seq<Seq<char>>,
    pub paths: Seq<Seq<char>>,
    pub health: HealthStatus,
}

impl View for Route {
    type V = RouteView;

    open spec fn view(&self) -> RouteView {
        RouteView {
            id: self.id@,
            name: self.name@,
            namespace: self.namespace@,
            url: self.url@,
            health_url: self.health_url@,
            health_path: self.health_path@,
            title: self.title@,
            description: self.description@,
            group: self.group@,
            icon: self.icon@,
            order: self.order,
            hidden: self.hidden,
            monitor_disabled: self.monitor_disabled,
            hosts: string_views(self.hosts@),
            paths: string_views(self.paths@),
            health: self.health,
        }
    }
}

impl RouteView {
    /// The route with every text empty, order 0, nothing hidden or disabled, health unknown.
    pub open spec fn empty() -> RouteView {
        RouteView {
            id: Seq::empty(),
            name: Seq::empty(),
            namespace: Seq::empty(),
            url: Seq::empty(),
            health_url: Seq::empty(),
            health_path: Seq::empty(),
            title: Seq::empty(),
            description: Seq::empty(),
            group: Seq::empty(),
            icon: Seq::empty(),
            order: 0,
            hidden: false,
            monitor_disabled: false,
            hosts: Seq::empty(),
            paths: Seq::empty(),
            health: HealthStatus::Unknown,
        }
    }

    /// The title shown on the card: the title, or the name when the title is empty.
    pub open spec fn display_title(self) -> Seq<char> {
        if self.title.len() == 0 {
            self.name
        } else {
            self.title
        }
    }
}

impl Default for Route {
    fn default() -> (r: Route)
        ensures
            r@ == RouteView::empty(),
    {
        let r = Route {
            id: String::new(),
            name: String::new(),
            namespace: String::new(),
            url: String::new(),
            health_url: String::new(),
            health_path: String::new(),
            title: String::new(),
            description: String::new(),
            group: String::new(),
            icon: String::new(),
            order: 0,
            hidden: false,
            monitor_disabled: false,
            hosts: Vec::new(),
            paths: Vec::new(),
            health: HealthStatus::Unknown,
        };
        assert(r@.hosts =~= Seq::<Seq<char>>::empty());
        assert(r@.paths =~= Seq::<Seq<char>>::empty());
        r
    }
}

/// A copy of a list of strings.
pub fn copy_strings(v: &Vec<String>) -> (r: Vec<String>)
    ensures
        string_views(r@) == string_views(v@),
{
    let mut r: Vec<String> = Vec::new();
    let mut i: usize = 0;
    while i < v.len()
        invariant
            i <= v.len(),
            string_views(r@) == string_views(v@).subrange(0, i as int),
        decreases v.len() - i,
    {
        let s = v[i].clone();
        assert(s@ == string_views(v@)[i as int]);
        let ghost before = string_views(r@);
        r.push(s);
        assert(string_views(r@) =~= before.push(s@));
        i = i + 1;
        assert(string_views(r@) =~= string_views(v@).subrange(0, i as int));
    }
    assert(string_views(v@).subrange(0, v.len() as int) =~= string_views(v@));
    r
}

/// Whether a string holds no characters.
pub fn is_empty_text(s: &str) -> (r: bool)
    ensures
        r == (s@.len() == 0),
{
    s.unicode_len() == 0
}

impl Route {
    /// A copy of this route with the same value.
    pub fn duplicate(&self) -> (r: Route)
        ensures
            r@ == self@,
    {
        Route {
            id: self.id.clone(),
            name: self.name.clone(),
            namespace: self.namespace.clone(),
            url: self.url.clone(),
            health_url: self.health_url.clone(),
            health_path: self.health_path.clone(),
            title: self.title.clone(),
            description: self.description.clone(),
            group: self.group.clone(),
            icon: self.icon.clone(),
            order: self.order,
            hidden: self.hidden,
            monitor_disabled: self.monitor_disabled,
            hosts: copy_strings(&self.hosts),
            paths: copy_strings(&self.paths),
            health: self.health,
        }
    }

    /// The title to show: the `title` field, or `name` when the title is empty.
    pub fn display_title(&self) -> (t: &str)
        ensures
            t@ == self@.display_title(),
    {
        if is_empty_text(self.title.as_str()) {
            self.name.as_str()
        } else {
            self.title.as_str()
        }
    }

    /// Applies the `routecrab.io/*` annotations to this route.
    ///
    /// `title`, `description`, `group`, `icon`, `health-url` and `health-path`
    /// replace the field; `url` replaces it only with an http(s) URL; `order`
    /// replaces it only with a value that parses as an `i32`; `hidden` sets the
    /// flag to whether the value is exactly `true`; `health` disables monitoring
    /// exactly when the value is `false`. Other keys are ignored.
    pub fn apply_annotations(&mut self, ann: &Annotations)
        ensures
            final(self)@ == annotated(old(self)@, ann@),
    {
        override_text(&mut self.title, ann, "routecrab.io/title");
        override_text(&mut self.description, ann, "routecrab.io/description");
        override_text(&mut self.group, ann, "routecrab.io/group");
        override_text(&mut self.icon, ann, "routecrab.io/icon");
        override_url(&mut self.url, ann);
        override_text(&mut self.health_url, ann, "routecrab.io/health-url");
        override_text(&mut self.health_path, ann, "routecrab.io/health-path");
        override_order(&mut self.order, ann);
        override_flag(&mut self.hidden, ann, "routecrab.io/hidden", "true");
        override_flag(&mut self.monitor_disabled, ann, "routecrab.io/health", "false");
    }
}

/// Replaces `field` by the value of annotation `key` when present.
fn override_text(field: &mut String, ann: &Annotations, key: &str)
    ensures
        final(field)@ == text_override(ann@, key@, old(field)@),
{
    if let Some(v) = ann.get(key) {
        *field = v.clone();
    }
}

/// Replaces the URL by the `routecrab.io/url` annotation when it is http(s).
fn override_url(field: &mut String, ann: &Annotations)
    ensures
        final(field)@ == (match ann_value(ann@, "routecrab.io/url"@) {
            Some(v) => if is_http_url_spec(v) {
                v
            } else {
                old(field)@
            },
            None => old(field)@,
        }),
{
    if let Some(v) = ann.get("routecrab.io/url") {
        if is_http_url(v.as_str()) {
            *field = v.clone();
        }
    }
}

/// Replaces the order by the `routecrab.io/order` annotation when it is an `i32`.
fn override_order(field: &mut i32, ann: &Annotations)
    ensures
        *final(field) == (match ann_value(ann@, "routecrab.io/order"@) {
            Some(v) => match parse_i32_spec(v) {
                Some(o) => o,
                None => *old(field),
            },
            None => *old(field),
        }),
{
    if let Some(v) = ann.get("routecrab.io/order") {
        if let Some(o) = parse_i32(v.as_str()) {
            *field = o;
        }
    }
}

/// Sets the flag to whether annotation `key` equals `expected`, when present.
fn override_flag(field: &mut bool, ann: &Annotations, key: &str, expected: &str)
    ensures
        *final(field) == (match ann_value(ann@, key@) {
            Some(v) => v == expected@,
            None => *old(field),
        }),
{
    if let Some(v) = ann.get(key) {
        *field = str_eq(v.as_str(), expected);
    }
}

/// The URL is http(s): after trimming and ASCII-lowercasing it begins with
/// `http://` or `https://`.
pub open spec fn is_http_url_spec(v: Seq<char>) -> bool {
    has_prefix(ascii_lower(trim(v)), "http://"@) || has_prefix(ascii_lower(trim(v)), "https://"@)
}

/// Whether `v` is an http(s) URL; keeps `javascript:` and `data:` hrefs off the board.
pub fn is_http_url(v: &str) -> (r: bool)
    ensures
        r == is_http_url_spec(v@),
{
    let t = trim_chars(&chars_of(v));
    let l = ascii_lowercase(&t);
    starts_with(&l, &chars_of("http://")) || starts_with(&l, &chars_of("https://"))
}

/// The value the annotation `key` holds, if any.
pub open spec fn ann_value(ann: Map<Seq<char>, Seq<char>>, key: Seq<char>) -> Option<Seq<char>> {
    if ann.dom().contains(key) {
        Some(ann[key])
    } else {
        None
    }
}

/// A text field replaced by the annotation `key` when present.
pub open spec fn text_override(
    ann: Map<Seq<char>, Seq<char>>,
    key: Seq<char>,
    current: Seq<char>,
) -> Seq<char> {
    match ann_value(ann, key) {
        Some(v) => v,
        None => current,
    }
}

/// `r` with the annotations `ann` applied.
pub open spec fn annotated(r: RouteView, ann: Map<Seq<char>, Seq<char>>) -> RouteView {
    RouteView {
        title: text_override(ann, "routecrab.io/title"@, r.title),
        description: text_override(ann, "routecrab.io/description"@, r.description),
        group: text_override(ann, "routecrab.io/group"@, r.group),
        icon: text_override(ann, "routecrab.io/icon"@, r.icon),
        url: match ann_value(ann, "routecrab.io/url"@) {
            Some(v) => if is_http_url_spec(v) {
                v
            } else {
                r.url
            },
            None => r.url,
        },
        health_url: text_override(ann, "routecrab.io/health-url"@, r.health_url),
        health_path: text_override(ann, "routecrab.io/health-path"@, r.health_path),
        order: match ann_value(ann, "routecrab.io/order"@) {
            Some(v) => match parse_i32_spec(v) {
                Some(o) => o,
                None => r.order,
            },
            None => r.order,
        },
        hidden: match ann_value(ann, "routecrab.io/hidden"@) {
            Some(v) => v == "true"@,
            None => r.hidden,
        },
        monitor_disabled: match ann_value(ann, "routecrab.io/health"@) {
            Some(v) => v == "false"@,
            None => r.monitor_disabled,
        },
        ..r
    }
}

/// Each `routecrab.io/*` annotation sets its own field and nothing else: a
/// present annotation gives its field the value (an http(s) URL only for
/// `url`, a number only for `order`; `hidden` is on for `true`, monitoring
/// is off for `health: false`); an absent one leaves the field as it was.
/// The identity, hosts, paths and health of the route never change.
pub proof fn lemma_annotation_keys(r: RouteView, ann: Map<Seq<char>, Seq<char>>)
    ensures
        ann.dom().contains("routecrab.io/title"@) ==> annotated(r, ann).title == ann["routecrab.io/title"@],
        !ann.dom().contains("routecrab.io/title"@) ==> annotated(r, ann).title == r.title,
        ann.dom().contains("routecrab.io/description"@) ==> annotated(r, ann).description == ann["routecrab.io/description"@],
        !ann.dom().contains("routecrab.io/description"@) ==> annotated(r, ann).description == r.description,
        ann.dom().contains("routecrab.io/group"@) ==> annotated(r, ann).group == ann["routecrab.io/group"@],
        !ann.dom().contains("routecrab.io/group"@) ==> annotated(r, ann).group == r.group,
        ann.dom().contains("routecrab.io/icon"@) ==> annotated(r, ann).icon == ann["routecrab.io/icon"@],
        !ann.dom().contains("routecrab.io/icon"@) ==> annotated(r, ann).icon == r.icon,
        ann.dom().contains("routecrab.io/health-url"@) ==> annotated(r, ann).health_url == ann["routecrab.io/health-url"@],
        !ann.dom().contains("routecrab.io/health-url"@) ==> annotated(r, ann).health_url == r.health_url,
        ann.dom().contains("routecrab.io/health-path"@) ==> annotated(r, ann).health_path == ann["routecrab.io/health-path"@],
        !ann.dom().contains("routecrab.io/health-path"@) ==> annotated(r, ann).health_path == r.health_path,
        ann.dom().contains("routecrab.io/url"@) && is_http_url_spec(ann["routecrab.io/url"@]) ==> annotated(r, ann).url == ann["routecrab.io/url"@],
        !(ann.dom().contains("routecrab.io/url"@) && is_http_url_spec(ann["routecrab.io/url"@])) ==> annotated(r, ann).url == r.url,
        ann.dom().contains("routecrab.io/order"@) ==> (parse_i32_spec(ann["routecrab.io/order"@]) matches Some(o) ==> annotated(r, ann).order == o),
        !ann.dom().contains("routecrab.io/order"@) ==> annotated(r, ann).order == r.order,
        ann.dom().contains("routecrab.io/hidden"@) ==> annotated(r, ann).hidden == (ann["routecrab.io/hidden"@] == "true"@),
        !ann.dom().contains("routecrab.io/hidden"@) ==> annotated(r, ann).hidden == r.hidden,
        ann.dom().contains("routecrab.io/health"@) ==> annotated(r, ann).monitor_disabled == (ann["routecrab.io/health"@] == "false"@),
        !ann.dom().contains("routecrab.io/health"@) ==> annotated(r, ann).monitor_disabled == r.monitor_disabled,
        annotated(r, ann).id == r.id && annotated(r, ann).name == r.name && annotated(r, ann).namespace == r.namespace,
        annotated(r, ann).hosts == r.hosts && annotated(r, ann).paths == r.paths && annotated(r, ann).health == r.health,
{
}

/// Applying the same annotations twice changes nothing more than applying them once.
pub proof fn lemma_annotations_idempotent(r: RouteView, ann: Map<Seq<char>, Seq<char>>)
    ensures
        annotated(annotated(r, ann), ann) == annotated(r, ann),
{
}

/// Annotations never put a non-http(s) URL on a route: the URL either stays
/// as it was or becomes an http(s) URL.
pub proof fn lemma_annotated_url_is_http(r: RouteView, ann: Map<Seq<char>, Seq<char>>)
    ensures
        annotated(r, ann).url == r.url || is_http_url_spec(annotated(r, ann).url),
{
}

/// Without `routecrab.io/*` annotations a route is left unchanged.
pub proof fn lemma_no_annotations(r: RouteView)
    ensures
        annotated(r, Map::empty()) == r,
{
}

/// A map from annotation key to value, as read from a resource's metadata.
/// Inserting a key that is present replaces its value.
pub struct Annotations {
    entries: Vec<(String, String)>,
}

impl View for Annotations {
    type V = Map<Seq<char>, Seq<char>>;

    closed spec fn view(&self) -> Map<Seq<char>, Seq<char>> {
        pairs_map(pair_views(self.entries@))
    }
}

impl Annotations {
    /// No annotations.
    pub fn new() -> (a: Annotations)
        ensures
            a@ == Map::<Seq<char>, Seq<char>>::empty(),
    {
        let a = Annotations { entries: Vec::new() };
        assert(pair_views(a.entries@) =~= Seq::empty());
        a
    }

    /// Sets annotation `key` to `value`.
    pub fn insert(&mut self, key: String, value: String)
        ensures
            final(self)@ == old(self)@.insert(key@, value@),
    {
        let ghost before = pair_views(self.entries@);
        self.entries.push((key, value));
        assert(pair_views(self.entries@).drop_last() =~= before);
    }

    /// The value of annotation `key`, if present.
    pub fn get(&self, key: &str) -> (r: Option<&String>)
        ensures
            r is Some <==> self@.dom().contains(key@),
            r matches Some(v) ==> v@ == self@[key@],
    {
        lookup_pair(&self.entries, key)
    }
}

} // verus!
