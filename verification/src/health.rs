//! Health checking: which routes to probe, at which URL, whether a target is
//! refused, and how a probe's outcome becomes a [`HealthStatus`].
use std::time::Duration;

use vstd::prelude::*;

use crate::config::{duration_nanos, Config};
use crate::model::{is_empty_text, HealthStatus, Route, RouteView};
use crate::text::{ascii_lower, ascii_lowercase, chars_eq, chars_of, ends_with, has_suffix, string_of};

verus! {

// ---------------------------------------------------------------------------
// Classification
// ---------------------------------------------------------------------------

/// The status a probe earns: no response or a code of 400 and above is
/// unhealthy; a response slower than the threshold is degraded; else healthy.
pub open spec fn classify_spec(status: Option<u16>, elapsed: int, degraded_after: int) -> HealthStatus {
    match status {
        None => HealthStatus::Unhealthy,
        Some(code) => if code >= 400 {
            HealthStatus::Unhealthy
        } else if elapsed > degraded_after {
            HealthStatus::Degraded
        } else {
            HealthStatus::Healthy
        },
    }
}

/// What each probe outcome earns. A failed request or an error code (400 and
/// above) is unhealthy however fast or slow the answer came: slowness never
/// turns an error into a degradation. A successful answer is degraded exactly
/// when it took longer than the threshold, and healthy otherwise.
pub proof fn lemma_classify_outcomes(status: Option<u16>, elapsed: int, degraded_after: int)
    ensures
        status is None ==> classify_spec(status, elapsed, degraded_after) == HealthStatus::Unhealthy,
        status matches Some(c) && c >= 400 ==> classify_spec(status, elapsed, degraded_after)
            == HealthStatus::Unhealthy,
        status matches Some(c) && c < 400 && elapsed > degraded_after ==> classify_spec(
            status,
            elapsed,
            degraded_after,
        ) == HealthStatus::Degraded,
        status matches Some(c) && c < 400 && elapsed <= degraded_after ==> classify_spec(
            status,
            elapsed,
            degraded_after,
        ) == HealthStatus::Healthy,
{
}

proof fn lemma_duration_order(s1: u64, n1: u32, s2: u64, n2: u32)
    by (nonlinear_arith)
    requires
        n1 < 1_000_000_000,
        n2 < 1_000_000_000,
    ensures
        (s1 * 1_000_000_000 + n1 > s2 * 1_000_000_000 + n2) == (s1 > s2 || (s1 == s2 && n1 > n2)),
{
}

/// Whether `a` is longer than `b`.
pub fn duration_exceeds(a: Duration, b: Duration) -> (r: bool)
    ensures
        r == (duration_nanos(a) > duration_nanos(b)),
{
    let (s1, n1) = (a.as_secs(), a.subsec_nanos());
    let (s2, n2) = (b.as_secs(), b.subsec_nanos());
    proof {
        lemma_duration_order(s1, n1, s2, n2);
    }
    s1 > s2 || (s1 == s2 && n1 > n2)
}

/// Classifies a probe result: the response code (`None` when the request
/// failed), how long it took, and the threshold above which it is slow.
pub fn classify(status: Option<u16>, elapsed: Duration, degraded_after: Duration) -> (h: HealthStatus)
    ensures
        h == classify_spec(status, duration_nanos(elapsed), duration_nanos(degraded_after)),
        status is None ==> h == HealthStatus::Unhealthy,
        status matches Some(c) && c >= 400 ==> h == HealthStatus::Unhealthy,
        status matches Some(c) && c < 400 && duration_nanos(elapsed) > duration_nanos(
            degraded_after,
        ) ==> h == HealthStatus::Degraded,
        status matches Some(c) && c < 400 && duration_nanos(elapsed) <= duration_nanos(
            degraded_after,
        ) ==> h == HealthStatus::Healthy,
{
    proof {
        lemma_classify_outcomes(status, duration_nanos(elapsed), duration_nanos(degraded_after));
    }
    match status {
        None => HealthStatus::Unhealthy,
        Some(code) => {
            if code >= 400 {
                HealthStatus::Unhealthy
            } else if duration_exceeds(elapsed, degraded_after) {
                HealthStatus::Degraded
            } else {
                HealthStatus::Healthy
            }
        },
    }
}

proof fn lemma_half(s: u64, n: u32)
    by (nonlinear_arith)
    requires
        n < 1_000_000_000,
    ensures
        (s / 2) * 1_000_000_000 + (n + (s % 2) * 1_000_000_000) / 2 == (s * 1_000_000_000 + n) / 2,
        (n + (s % 2) * 1_000_000_000) / 2 < 1_000_000_000,
{
}

/// Whether the health loop runs at all: with health checking switched off
/// it returns at once and no route is probed.
pub fn probing_enabled(cfg: &Config) -> (b: bool)
    ensures
        b == cfg.health_enabled,
{
    cfg.health_enabled
}

/// The slow-response threshold for a probe timeout: half the timeout, so a
/// slow upstream shows as degraded before it crosses the hard timeout.
pub fn degraded_threshold(timeout: Duration) -> (d: Duration)
    ensures
        duration_nanos(d) == duration_nanos(timeout) / 2,
{
    let s = timeout.as_secs();
    let n = timeout.subsec_nanos();
    proof {
        lemma_half(s, n);
    }
    let carry: u64 = (s % 2) * 1_000_000_000;
    let half_nanos = ((n as u64 + carry) / 2) as u32;
    Duration::new(s / 2, half_nanos)
}

// ---------------------------------------------------------------------------
// Which routes are probed, and where
// ---------------------------------------------------------------------------

/// A route is probed when it is visible, its monitoring is on, and it has a
/// public URL or a health URL.
pub open spec fn should_check_spec(r: RouteView) -> bool {
    !r.hidden && !r.monitor_disabled && (r.url.len() > 0 || r.health_url.len() > 0)
}

/// Eligibility: hidden routes and routes with monitoring off are never
/// probed; a visible, monitored route is probed when it has a URL or a
/// health URL, and not when it has neither (a health path alone has no
/// origin to resolve against).
pub proof fn lemma_probe_eligibility(r: RouteView)
    ensures
        r.hidden ==> !should_check_spec(r),
        r.monitor_disabled ==> !should_check_spec(r),
        !r.hidden && !r.monitor_disabled && r.url.len() > 0 ==> should_check_spec(r),
        !r.hidden && !r.monitor_disabled && r.health_url.len() > 0 ==> should_check_spec(r),
        r.url.len() == 0 && r.health_url.len() == 0 ==> !should_check_spec(r),
{
}

/// Whether the route is eligible for health probing.
pub fn should_check(r: &Route) -> (b: bool)
    ensures
        b == should_check_spec(r@),
{
    !r.hidden && !r.monitor_disabled && (!is_empty_text(r.url.as_str()) || !is_empty_text(
        r.health_url.as_str(),
    ))
}

/// The serialization of the URL that `Url::parse` reads from `url`, with its
/// path set to `path` and its query removed; `None` when `url` does not parse.
pub uninterp spec fn url_with_path_of(url: Seq<char>, path: Seq<char>) -> Option<Seq<char>>;

/// The length in bytes of the serialization that `Url::parse` makes of a
/// text, or `None` when the text does not parse.
pub uninterp spec fn parsed_url_len_of(url: Seq<char>) -> Option<usize>;

/// `reqwest::Url::parse`, then the byte length of its serialization. The URL
/// standard is not restated: the result is named `parsed_url_len_of`.
#[verifier::external_body]
fn parsed_url_len(url: &str) -> (r: Option<usize>)
    ensures
        r == parsed_url_len_of(url@),
{
    match reqwest::Url::parse(url) {
        Ok(u) => Some(u.as_str().len()),
        Err(_) => None,
    }
}

/// Setting `path` on the URL read from `url` keeps its serialization within
/// the `u32::MAX` bytes that `Url` indexes with `u32` (`set_path` unwraps that
/// conversion). The new serialization is at most the parsed one plus the
/// encoded path: 12 bytes per character of `path` (4 UTF-8 bytes, each
/// percent-encoded as 3) and one leading `/`. A text that does not parse
/// never reaches `set_path`.
pub open spec fn path_fits(url: Seq<char>, path: Seq<char>) -> bool {
    match parsed_url_len_of(url) {
        Some(n) => n + 12 * path.len() + 1 <= u32::MAX,
        None => true,
    }
}

/// `reqwest::Url::parse`, then `set_path`, `set_query(None)` and the
/// serialization. What the URL standard makes of the text is not restated:
/// the result is named `url_with_path_of`. One fact is stated: a
/// serialization is never empty (it begins with the scheme and `:`). The
/// `requires` keeps `set_path` clear of its `u32` unwrap.
#[verifier::external_body]
fn url_with_path(url: &str, path: &str) -> (r: Option<String>)
    requires
        path_fits(url@, path@),
    ensures
        r is Some <==> url_with_path_of(url@, path@) is Some,
        r matches Some(s) ==> s@ == url_with_path_of(url@, path@)->0 && s@.len() > 0,
{
    match reqwest::Url::parse(url) {
        Ok(mut u) => {
            u.set_path(path);
            u.set_query(None);
            Some(u.to_string())
        },
        Err(_) => None,
    }
}

/// The URL to probe: the health URL if set, else the route URL with its path
/// replaced by the health path (when both parse), else the route URL.
pub open spec fn probe_target_spec(r: RouteView) -> Seq<char> {
    if r.health_url.len() > 0 {
        r.health_url
    } else if r.health_path.len() > 0 {
        match url_with_path_of(r.url, r.health_path) {
            Some(u) => u,
            None => r.url,
        }
    } else {
        r.url
    }
}

/// Target precedence: a health URL is probed as given; else a health path
/// is set on the route URL (its query dropped), falling back to the route URL
/// when that does not parse; without either, the route URL is probed.
pub proof fn lemma_probe_target_precedence(r: RouteView)
    ensures
        r.health_url.len() > 0 ==> probe_target_spec(r) == r.health_url,
        r.health_url.len() == 0 && r.health_path.len() == 0 ==> probe_target_spec(r) == r.url,
        r.health_url.len() == 0 && r.health_path.len() > 0 && url_with_path_of(
            r.url,
            r.health_path,
        ) is None ==> probe_target_spec(r) == r.url,
        r.health_url.len() == 0 && r.health_path.len() > 0 ==> (url_with_path_of(
            r.url,
            r.health_path,
        ) matches Some(u) ==> probe_target_spec(r) == u),
{
}

/// Resolving the route's target stays within what `Url` can index: it holds
/// unless the health path is set on the route URL and would not fit.
pub open spec fn probe_inputs_bounded(r: RouteView) -> bool {
    r.health_url.len() > 0 || r.health_path.len() == 0 || path_fits(r.url, r.health_path)
}

/// Whether the route's target can be resolved within what `Url` can index.
pub fn probe_inputs_fit(r: &Route) -> (b: bool)
    ensures
        b == probe_inputs_bounded(r@),
{
    if !is_empty_text(r.health_url.as_str()) || is_empty_text(r.health_path.as_str()) {
        return true;
    }
    match parsed_url_len(r.url.as_str()) {
        None => true,
        Some(n) => {
            let p = r.health_path.as_str().unicode_len();
            if p > 357_913_941 {
                false
            } else {
                let room: u64 = 0xFFFF_FFFEu64 - 12 * (p as u64);
                (n as u64) <= room
            }
        },
    }
}

/// Resolves the URL to probe. Precedence: `health_url` (full override) >
/// `health_path` (path on the route URL's origin) > `url`.
pub fn probe_target(r: &Route) -> (t: String)
    requires
        probe_inputs_bounded(r@),
    ensures
        t@ == probe_target_spec(r@),
        should_check_spec(r@) ==> t@.len() > 0,
{
    if !is_empty_text(r.health_url.as_str()) {
        return r.health_url.clone();
    }
    if !is_empty_text(r.health_path.as_str()) {
        if let Some(u) = url_with_path(r.url.as_str(), r.health_path.as_str()) {
            return u;
        }
    }
    r.url.clone()
}

// ---------------------------------------------------------------------------
// Refused targets
// ---------------------------------------------------------------------------

/// An IP address literal: four octets, or eight 16-bit segments.
#[derive(Clone, Copy, Debug, PartialEq, Eq, Structural)]
pub enum IpLiteral {
    V4(u8, u8, u8, u8),
    V6(u16, u16, u16, u16, u16, u16, u16, u16),
}

/// The address that `IpAddr`'s `FromStr` reads from a text, or `None`.
pub uninterp spec fn ip_literal_of(s: Seq<char>) -> Option<IpLiteral>;

/// `str::parse::<IpAddr>()`, its address given as octets or segments. The
/// IPv4/IPv6 text grammar is not restated: the result is named `ip_literal_of`.
#[verifier::external_body]
fn parse_ip(s: &str) -> (r: Option<IpLiteral>)
    ensures
        r == ip_literal_of(s@),
{
    match s.parse::<core::net::IpAddr>() {
        Ok(core::net::IpAddr::V4(a)) => {
            let o = a.octets();
            Some(IpLiteral::V4(o[0], o[1], o[2], o[3]))
        },
        Ok(core::net::IpAddr::V6(a)) => {
            let g = a.segments();
            Some(IpLiteral::V6(g[0], g[1], g[2], g[3], g[4], g[5], g[6], g[7]))
        },
        Err(_) => None,
    }
}

/// Loopback (127.0.0.0/8), link-local (169.254.0.0/16), unspecified
/// (0.0.0.0) and the broadcast address are refused among IPv4 addresses.
pub open spec fn v4_blocked(a: int, b: int, c: int, d: int) -> bool {
    ||| a == 127
    ||| (a == 169 && b == 254)
    ||| (a == 0 && b == 0 && c == 0 && d == 0)
    ||| (a == 255 && b == 255 && c == 255 && d == 255)
}

/// Loopback (127.0.0.0/8, ::1), link-local (169.254.0.0/16, fe80::/10),
/// unspecified (0.0.0.0, ::) and the IPv4 broadcast address are refused. An
/// IPv4-mapped IPv6 address (::ffff:a.b.c.d) reaches the IPv4 host a.b.c.d and
/// is judged as that address. Private ranges stay allowed: probing
/// cluster-internal services is supported.
pub open spec fn ip_blocked(ip: IpLiteral) -> bool {
    match ip {
        IpLiteral::V4(a, b, c, d) => v4_blocked(a as int, b as int, c as int, d as int),
        IpLiteral::V6(s0, s1, s2, s3, s4, s5, s6, s7) => {
            let zero_prefix = s0 == 0 && s1 == 0 && s2 == 0 && s3 == 0 && s4 == 0;
            ||| (zero_prefix && s5 == 0 && s6 == 0 && s7 == 1)
            ||| (zero_prefix && s5 == 0 && s6 == 0 && s7 == 0)
            ||| (s0 & 0xffc0u16) == 0xfe80u16
            ||| (zero_prefix && s5 == 0xffff && v4_blocked(
                s6 as int / 256,
                s6 as int % 256,
                s7 as int / 256,
                s7 as int % 256,
            ))
        },
    }
}

/// The refused IPv4 ranges: all of 127.0.0.0/8 and 169.254.0.0/16, the
/// unspecified and broadcast addresses; the private ranges 10/8,
/// 172.16/12 and 192.168/16 stay allowed.
pub proof fn lemma_v4_ranges(a: u8, b: u8, c: u8, d: u8)
    ensures
        a == 127 ==> ip_blocked(IpLiteral::V4(a, b, c, d)),
        a == 169 && b == 254 ==> ip_blocked(IpLiteral::V4(a, b, c, d)),
        ip_blocked(IpLiteral::V4(0, 0, 0, 0)),
        ip_blocked(IpLiteral::V4(255, 255, 255, 255)),
        a == 10 ==> !ip_blocked(IpLiteral::V4(a, b, c, d)),
        a == 172 && 16 <= b <= 31 ==> !ip_blocked(IpLiteral::V4(a, b, c, d)),
        a == 192 && b == 168 ==> !ip_blocked(IpLiteral::V4(a, b, c, d)),
{
}

/// The refused IPv6 addresses: `::1`, `::`, all of fe80::/10, and every
/// IPv4-mapped address (`::ffff:a.b.c.d`) whose IPv4 address is refused.
pub proof fn lemma_v6_ranges(s0: u16, s1: u16, s2: u16, s3: u16, s4: u16, s5: u16, s6: u16, s7: u16)
    ensures
        ip_blocked(IpLiteral::V6(0, 0, 0, 0, 0, 0, 0, 1)),
        ip_blocked(IpLiteral::V6(0, 0, 0, 0, 0, 0, 0, 0)),
        0xfe80 <= s0 <= 0xfebf ==> ip_blocked(IpLiteral::V6(s0, s1, s2, s3, s4, s5, s6, s7)),
        ip_blocked(IpLiteral::V6(0, 0, 0, 0, 0, 0xffff, s6, s7)) == ip_blocked(
            IpLiteral::V4((s6 / 256) as u8, (s6 % 256) as u8, (s7 / 256) as u8, (s7 % 256) as u8),
        ),
{
    if 0xfe80 <= s0 <= 0xfebf {
        assert((s0 & 0xffc0u16) == 0xfe80u16) by (bit_vector)
            requires
                0xfe80 <= s0 <= 0xfebf,
        ;
    }
    assert(0x0u16 & 0xffc0u16 == 0u16) by (bit_vector);
}

/// Names of the host itself are refused whatever their letter case:
/// `localhost` and every name under `.localhost`.
pub proof fn lemma_localhost_refused(host: Seq<char>)
    ensures
        ascii_lower(host) == "localhost"@ ==> host_blocked(host),
        has_suffix(ascii_lower(host), ".localhost"@) ==> host_blocked(host),
{
}

/// A target that is not a URL, or has no host, is refused.
pub proof fn lemma_unreadable_target_refused(target: Seq<char>)
    ensures
        url_host_of(target) is None ==> target_blocked(target),
        url_host_of(target) == Some(None::<Seq<char>>) ==> target_blocked(target),
        url_host_of(target) matches Some(Some(h)) ==> target_blocked(target) == host_blocked(h),
{
}

fn is_blocked_v4(a: u8, b: u8, c: u8, d: u8) -> (r: bool)
    ensures
        r == v4_blocked(a as int, b as int, c as int, d as int),
{
    a == 127 || (a == 169 && b == 254) || (a == 0 && b == 0 && c == 0 && d == 0) || (a == 255
        && b == 255 && c == 255 && d == 255)
}

/// Whether a probe to this address must be refused.
pub fn is_blocked_ip(ip: &IpLiteral) -> (b: bool)
    ensures
        b == ip_blocked(*ip),
{
    match ip {
        IpLiteral::V4(a, b, c, d) => is_blocked_v4(*a, *b, *c, *d),
        IpLiteral::V6(s0, s1, s2, s3, s4, s5, s6, s7) => {
            let zero_prefix = *s0 == 0 && *s1 == 0 && *s2 == 0 && *s3 == 0 && *s4 == 0;
            if zero_prefix && *s5 == 0 && *s6 == 0 && (*s7 == 1 || *s7 == 0) {
                return true;
            }
            if (*s0 & 0xffc0u16) == 0xfe80u16 {
                return true;
            }
            if zero_prefix && *s5 == 0xffff {
                let hi = *s6;
                let lo = *s7;
                is_blocked_v4((hi / 256) as u8, (hi % 256) as u8, (lo / 256) as u8, (lo % 256) as u8)
            } else {
                false
            }
        },
    }
}

/// The host that `Url::parse` finds in a text: `None` when the text is not a
/// URL, `Some(None)` when the URL has no host.
pub uninterp spec fn url_host_of(s: Seq<char>) -> Option<Option<Seq<char>>>;

/// `reqwest::Url::parse`, then `host_str`. The URL standard is not restated:
/// the result is named `url_host_of`.
#[verifier::external_body]
fn url_host(s: &str) -> (r: Option<Option<String>>)
    ensures
        match r {
            None => url_host_of(s@) is None,
            Some(None) => url_host_of(s@) == Some(None::<Seq<char>>),
            Some(Some(h)) => url_host_of(s@) == Some(Some(h@)),
        },
{
    match reqwest::Url::parse(s) {
        Ok(u) => match u.host_str() {
            Some(h) => Some(Some(h.to_string())),
            None => Some(None),
        },
        Err(_) => None,
    }
}

/// `s` without all its leading `c` (`str::trim_start_matches`).
pub open spec fn strip_leading(s: Seq<char>, c: char) -> Seq<char>
    decreases s.len(),
{
    if s.len() > 0 && s[0] == c {
        strip_leading(s.drop_first(), c)
    } else {
        s
    }
}

/// `s` without all its trailing `c` (`str::trim_end_matches`).
pub open spec fn strip_trailing(s: Seq<char>, c: char) -> Seq<char>
    decreases s.len(),
{
    if s.len() > 0 && s.last() == c {
        strip_trailing(s.drop_last(), c)
    } else {
        s
    }
}

/// The host without the brackets that surround an IPv6 literal.
pub open spec fn unbracketed(h: Seq<char>) -> Seq<char> {
    strip_trailing(strip_leading(h, '['), ']')
}

fn unbracket(v: &Vec<char>) -> (r: Vec<char>)
    ensures
        r@ == unbracketed(v@),
{
    let n = v.len();
    let mut i: usize = 0;
    assert(v@.subrange(0, n as int) =~= v@);
    while i < n && v[i] == '['
        invariant
            n == v.len(),
            i <= n,
            strip_leading(v@, '[') == strip_leading(v@.subrange(i as int, n as int), '['),
        decreases n - i,
    {
        assert(v@.subrange(i as int, n as int).drop_first() =~= v@.subrange(i + 1, n as int));
        i = i + 1;
    }
    let mut j: usize = n;
    while j > i && v[j - 1] == ']'
        invariant
            n == v.len(),
            i <= j <= n,
            unbracketed(v@) == strip_trailing(v@.subrange(i as int, j as int), ']'),
        decreases j - i,
    {
        assert(v@.subrange(i as int, j as int).drop_last() =~= v@.subrange(i as int, j - 1));
        j = j - 1;
    }
    let mut r: Vec<char> = Vec::new();
    let mut k: usize = i;
    while k < j
        invariant
            n == v.len(),
            i <= k <= j <= n,
            r@ == v@.subrange(i as int, k as int),
        decreases j - k,
    {
        r.push(v[k]);
        k = k + 1;
        assert(r@ =~= v@.subrange(i as int, k as int));
    }
    r
}

/// A host is refused when it is `localhost` or under `.localhost` (ASCII
/// case-insensitively), or when it is an IP literal in a refused range.
pub open spec fn host_blocked(host: Seq<char>) -> bool {
    let lower = ascii_lower(host);
    ||| lower == "localhost"@
    ||| has_suffix(lower, ".localhost"@)
    ||| match ip_literal_of(unbracketed(host)) {
        Some(ip) => ip_blocked(ip),
        None => false,
    }
}

/// A target is refused when it does not parse as a URL, has no host, or has a
/// refused host. Hostnames that resolve to refused ranges through DNS are not
/// caught: no resolution happens before the probe.
pub open spec fn target_blocked(target: Seq<char>) -> bool {
    match url_host_of(target) {
        None => true,
        Some(None) => true,
        Some(Some(h)) => host_blocked(h),
    }
}

/// Whether a probe target must not be requested (SSRF guard).
pub fn is_blocked_target(target: &str) -> (b: bool)
    ensures
        b == target_blocked(target@),
{
    let host = match url_host(target) {
        None => {
            return true;
        },
        Some(None) => {
            return true;
        },
        Some(Some(h)) => h,
    };
    let hv = chars_of(host.as_str());
    let lower = ascii_lowercase(&hv);
    if chars_eq(&lower, &chars_of("localhost")) || ends_with(&lower, &chars_of(".localhost")) {
        return true;
    }
    let bare = string_of(&unbracket(&hv));
    match parse_ip(bare.as_str()) {
        Some(ip) => is_blocked_ip(&ip),
        None => false,
    }
}

// ---------------------------------------------------------------------------
// One round of probing
// ---------------------------------------------------------------------------

/// What the health loop does with one route.
pub enum ProbePlan {
    /// The route is not eligible for probing.
    Skip,
    /// The route's health path cannot be set on its URL within what `Url`
    /// can index; the route is left as it is.
    TooLong,
    /// The route's health is set to this value without a request.
    Mark(HealthStatus),
    /// A HEAD request is sent to this URL and its outcome classified.
    Probe(String),
}

/// Decides what the health loop does with a route: skip ineligible routes,
/// leave routes whose target cannot be resolved, mark refused targets
/// unknown, and probe the rest at their target.
pub fn plan_probe(r: &Route) -> (p: ProbePlan)
    ensures
        !should_check_spec(r@) ==> p is Skip,
        should_check_spec(r@) && !probe_inputs_bounded(r@) ==> p is TooLong,
        should_check_spec(r@) && probe_inputs_bounded(r@) && target_blocked(probe_target_spec(r@))
            ==> p == ProbePlan::Mark(HealthStatus::Unknown),
        should_check_spec(r@) && probe_inputs_bounded(r@) && !target_blocked(
            probe_target_spec(r@),
        ) ==> (p matches ProbePlan::Probe(t) && t@ == probe_target_spec(r@)),
{
    if !should_check(r) {
        return ProbePlan::Skip;
    }
    if !probe_inputs_fit(r) {
        return ProbePlan::TooLong;
    }
    let target = probe_target(r);
    if is_blocked_target(target.as_str()) {
        ProbePlan::Mark(HealthStatus::Unknown)
    } else {
        ProbePlan::Probe(target)
    }
}

} // verus!
