//! Configuration read from `ROUTECRAB_*` key-value settings.
use std::time::Duration;

use vstd::prelude::*;

use crate::text::{
    ascii_lower, chars_of, csv_items, csv_list, is_ascii_text, is_digit, is_whitespace, is_ws, lookup_pair, lowercase_of, pair_views, pairs_map,
    parse_u16, parse_u16_spec, str_eq, string_views, to_lowercase,
};

verus! {

// ---------------------------------------------------------------------------
// Durations
// ---------------------------------------------------------------------------

/// What `Duration::as_secs` returns: the whole seconds of `d`.
pub uninterp spec fn duration_secs(d: Duration) -> u64;

/// What `Duration::subsec_nanos` returns: the fraction of a second of `d`, in nanoseconds.
pub uninterp spec fn duration_subsec_nanos(d: Duration) -> u32;

/// The length of `d` in nanoseconds.
pub open spec fn duration_nanos(d: Duration) -> int {
    duration_secs(d) * 1_000_000_000 + duration_subsec_nanos(d)
}

/// `Duration::as_secs`: the number of whole seconds.
pub assume_specification[ core::time::Duration::as_secs ](d: &Duration) -> (r: u64)
    ensures
        r == duration_secs(*d),
;

/// `Duration::subsec_nanos`: the fractional part in nanoseconds, documented as
/// always less than one billion.
pub assume_specification[ core::time::Duration::subsec_nanos ](d: &Duration) -> (r: u32)
    ensures
        r == duration_subsec_nanos(*d),
        r < 1_000_000_000,
;

/// `Duration::from_secs`: a duration of exactly `secs` seconds.
pub assume_specification[ core::time::Duration::from_secs ](secs: u64) -> (d: Duration)
    ensures
        duration_secs(d) == secs,
        duration_subsec_nanos(d) == 0,
;

/// `Duration::new`: whole seconds plus nanoseconds; with fewer than one billion
/// nanoseconds nothing carries over and nothing can panic.
pub assume_specification[ core::time::Duration::new ](secs: u64, nanos: u32) -> (d: Duration)
    requires
        nanos < 1_000_000_000,
    ensures
        duration_secs(d) == secs,
        duration_subsec_nanos(d) == nanos,
;

/// `Duration` is `Copy`; its clone is the same value.
pub assume_specification[ <core::time::Duration as Clone>::clone ](d: &Duration) -> (r: Duration)
    ensures
        r == *d,
;

/// The (seconds, nanoseconds) that `humantime::parse_duration` reads from a
/// text, or `None` where it returns an error.
pub uninterp spec fn humantime_duration(s: Seq<char>) -> Option<(u64, u32)>;

/// The value of the number that `s` ends in: its trailing digits, with the
/// whitespace between them skipped as humantime skips it; 0 when `s` does
/// not end in a number.
pub open spec fn trailing_number(s: Seq<char>) -> nat
    decreases s.len(),
{
    if s.len() == 0 {
        0
    } else if is_digit(s.last()) {
        trailing_number(s.drop_last()) * 10 + (s.last() as nat - '0' as nat) as nat
    } else if is_ws(s.last()) {
        trailing_number(s.drop_last())
    } else {
        0
    }
}

/// Whether `s` ends in a number (whitespace after its digits included).
pub open spec fn in_number(s: Seq<char>) -> bool
    decreases s.len(),
{
    if s.len() == 0 {
        false
    } else if is_digit(s.last()) {
        true
    } else if is_ws(s.last()) {
        in_number(s.drop_last())
    } else {
        false
    }
}

/// The sum of (value + 1) over the numbers of `s` that a later character
/// has ended.
pub open spec fn closed_numbers(s: Seq<char>) -> nat
    decreases s.len(),
{
    if s.len() == 0 {
        0
    } else if is_digit(s.last()) || is_ws(s.last()) {
        closed_numbers(s.drop_last())
    } else if in_number(s.drop_last()) {
        closed_numbers(s.drop_last()) + trailing_number(s.drop_last()) + 1
    } else {
        closed_numbers(s.drop_last())
    }
}

/// The sum of (value + 1) over all numbers of `s`. A number is a run of ASCII
/// digits in which whitespace is skipped; any other character ends it. Every
/// integer part or fraction humantime reads is such a run.
pub open spec fn number_weight(s: Seq<char>) -> nat {
    closed_numbers(s) + if in_number(s) {
        trailing_number(s) + 1
    } else {
        0
    }
}

/// The largest number weight whose years (31 557 600 s each, the largest
/// unit) stay within `u64::MAX` seconds.
pub open spec fn duration_weight_limit() -> nat {
    584_542_046_090
}

/// A duration text that humantime reads without overflowing `Duration`. A
/// number of value `v` adds less than `v + 1` years of seconds, whatever its
/// unit and whether it is a fraction, so the seconds stay below
/// `584 542 046 090 * 31 557 600 < u64::MAX`; `Duration::new` would panic
/// only on a second carried into exactly `u64::MAX` seconds.
pub open spec fn duration_text_safe(s: Seq<char>) -> bool {
    number_weight(s) <= duration_weight_limit()
}

/// Whether a duration text stays within the weight limit.
pub fn duration_text_fits(s: &str) -> (b: bool)
    ensures
        b == duration_text_safe(s@),
{
    let cap: u64 = 584_542_046_091;
    let v = chars_of(s);
    let mut closed: u64 = 0;
    let mut tail: u64 = 0;
    let mut open = false;
    let mut i: usize = 0;
    while i < v.len()
        invariant
            cap == 584_542_046_091,
            i <= v.len(),
            closed == min_nat(closed_numbers(v@.subrange(0, i as int)), cap as nat),
            tail == min_nat(trailing_number(v@.subrange(0, i as int)), cap as nat),
            open == in_number(v@.subrange(0, i as int)),
        decreases v.len() - i,
    {
        let c = v[i];
        let ghost pre = v@.subrange(0, i as int);
        assert(v@.subrange(0, i + 1).drop_last() =~= pre);
        assert(v@.subrange(0, i + 1).last() == c);
        if '0' <= c && c <= '9' {
            let d: u64 = (c as u32 - '0' as u32) as u64;
            let grown = tail * 10 + d;
            tail = if grown < cap { grown } else { cap };
            open = true;
        } else if is_whitespace(c) {
        } else {
            if open {
                let sum = closed + tail + 1;
                closed = if sum < cap { sum } else { cap };
            }
            tail = 0;
            open = false;
        }
        i = i + 1;
    }
    assert(v@.subrange(0, v.len() as int) =~= v@);
    let total = if open { closed + tail + 1 } else { closed };
    total < cap
}

/// The smaller of two naturals.
pub open spec fn min_nat(a: nat, b: nat) -> nat {
    if a < b { a } else { b }
}

/// `humantime::parse_duration`, its error discarded. The grammar (a sum of
/// number-unit spans such as `1h 30m`) is not restated: the result is named
/// `humantime_duration`. humantime 2.4.0 panics, in `Duration::new`, on a
/// text whose seconds sum to exactly `u64::MAX` while its nanoseconds sum to
/// exactly one second (such as `18446744073709551615s 1000000000ns`); the
/// `requires` keeps such texts out.
#[verifier::external_body]
fn parse_duration(s: &str) -> (r: Option<Duration>)
    requires
        duration_text_safe(s@),
    ensures
        r is Some <==> humantime_duration(s@) is Some,
        r matches Some(d) ==> humantime_duration(s@) == Some(
            (duration_secs(d), duration_subsec_nanos(d)),
        ),
{
    humantime::parse_duration(s).ok()
}

// ---------------------------------------------------------------------------
// Settings
// ---------------------------------------------------------------------------

/// The settings that a list of key-value pairs gives: a later pair with the
/// same key replaces an earlier one.
pub open spec fn settings(vars: Seq<(String, String)>) -> Map<Seq<char>, Seq<char>> {
    pairs_map(pair_views(vars))
}

/// The value of setting `key`, if present.
pub open spec fn setting(env: Map<Seq<char>, Seq<char>>, key: Seq<char>) -> Option<Seq<char>> {
    if env.dom().contains(key) {
        Some(env[key])
    } else {
        None
    }
}

/// A text setting: its value, or `default` when it is missing.
pub open spec fn text_setting(
    env: Map<Seq<char>, Seq<char>>,
    key: Seq<char>,
    default: Seq<char>,
) -> Seq<char> {
    match setting(env, key) {
        Some(v) => v,
        None => default,
    }
}

/// A port setting: its value when it parses as a `u16`, else `default`.
pub open spec fn u16_setting(env: Map<Seq<char>, Seq<char>>, key: Seq<char>, default: u16) -> u16 {
    match setting(env, key) {
        Some(v) => match parse_u16_spec(v) {
            Some(p) => p,
            None => default,
        },
        None => default,
    }
}

/// A boolean setting: whether its lowercased value is `true`, or `default`
/// when it is missing.
pub open spec fn bool_setting(
    env: Map<Seq<char>, Seq<char>>,
    key: Seq<char>,
    default: bool,
) -> bool {
    match setting(env, key) {
        Some(v) => lowercase_of(v) == "true"@,
        None => default,
    }
}

/// A boolean setting whose value is all ASCII: whether the value is `true`
/// in any letter case; `None` when the setting is missing or not all ASCII.
pub open spec fn ascii_flag(env: Map<Seq<char>, Seq<char>>, key: Seq<char>) -> Option<bool> {
    match setting(env, key) {
        Some(v) => if is_ascii_text(v) {
            Some(ascii_lower(v) == "true"@)
        } else {
            None
        },
        None => None,
    }
}

/// A duration setting, as (seconds, nanoseconds): its value when humantime
/// reads it, else `default`. A value whose numbers are too large for
/// `duration_text_safe` counts as unreadable.
pub open spec fn duration_setting(
    env: Map<Seq<char>, Seq<char>>,
    key: Seq<char>,
    default: (u64, u32),
) -> (u64, u32) {
    match setting(env, key) {
        Some(v) => if duration_text_safe(v) {
            match humantime_duration(v) {
                Some(d) => d,
                None => default,
            }
        } else {
            default
        },
        None => default,
    }
}

/// A list setting: the items of its comma-separated value, or `default` when missing.
pub open spec fn list_setting(
    env: Map<Seq<char>, Seq<char>>,
    key: Seq<char>,
    default: Seq<Seq<char>>,
) -> Seq<Seq<char>> {
    match setting(env, key) {
        Some(v) => csv_items(v),
        None => default,
    }
}

/// The namespaces denied when no denylist is configured.
pub open spec fn default_denylist() -> Seq<Seq<char>> {
    seq!["kube-system"@, "kube-public"@, "kube-node-lease"@]
}

/// (seconds, nanoseconds) of a duration.
pub open spec fn duration_parts(d: Duration) -> (u64, u32) {
    (duration_secs(d), duration_subsec_nanos(d))
}

#[derive(Clone, Debug)]
pub struct Config {
    pub port: u16,
    pub address: String,
    pub title: String,
    pub log_level: String,
    pub log_format: String,
    pub health_enabled: bool,
    pub health_interval: Duration,
    pub health_timeout: Duration,
    /// Reserved: read and kept, not yet used by the route watcher.
    pub resync_interval: Duration,
    pub namespace_allowlist: Vec<String>,
    pub namespace_denylist: Vec<String>,
    pub metrics_enabled: bool,
    pub metrics_port: u16,
    pub metrics_address: String,
}

impl Config {
    /// Every field of `self` is what the settings `env` give, with its default
    /// where a setting is missing or does not parse.
    pub open spec fn from_settings(&self, env: Map<Seq<char>, Seq<char>>) -> bool {
        &&& self.port == u16_setting(env, "ROUTECRAB_PORT"@, 8080)
        &&& self.address@ == text_setting(env, "ROUTECRAB_ADDRESS"@, "0.0.0.0"@)
        &&& self.title@ == text_setting(env, "ROUTECRAB_TITLE"@, "routecrab"@)
        &&& self.log_level@ == text_setting(env, "ROUTECRAB_LOG_LEVEL"@, "info"@)
        &&& self.log_format@ == text_setting(env, "ROUTECRAB_LOG_FORMAT"@, "text"@)
        &&& self.health_enabled == bool_setting(env, "ROUTECRAB_HEALTH_ENABLED"@, true)
        &&& duration_parts(self.health_interval) == duration_setting(
            env,
            "ROUTECRAB_HEALTH_INTERVAL"@,
            (30, 0),
        )
        &&& duration_parts(self.health_timeout) == duration_setting(
            env,
            "ROUTECRAB_HEALTH_TIMEOUT"@,
            (5, 0),
        )
        &&& duration_parts(self.resync_interval) == duration_setting(
            env,
            "ROUTECRAB_RESYNC_INTERVAL"@,
            (1800, 0),
        )
        &&& string_views(self.namespace_allowlist@) == list_setting(
            env,
            "ROUTECRAB_NAMESPACE_ALLOWLIST"@,
            Seq::empty(),
        )
        &&& string_views(self.namespace_denylist@) == list_setting(
            env,
            "ROUTECRAB_NAMESPACE_DENYLIST"@,
            default_denylist(),
        )
        &&& self.metrics_enabled == bool_setting(env, "ROUTECRAB_METRICS_ENABLED"@, true)
        &&& self.metrics_port == u16_setting(env, "ROUTECRAB_METRICS_PORT"@, 9090)
        &&& self.metrics_address@ == text_setting(env, "ROUTECRAB_METRICS_ADDRESS"@, "0.0.0.0"@)
    }

    /// The switches are read case-insensitively: where a switch's value is
    /// all ASCII, the switch is on exactly when the value is `true` in any
    /// letter case (`TRUE`, `True`, ...).
    pub open spec fn flags_case_insensitive(&self, env: Map<Seq<char>, Seq<char>>) -> bool {
        &&& ascii_flag(env, "ROUTECRAB_HEALTH_ENABLED"@) matches Some(b) ==> self.health_enabled
            == b
        &&& ascii_flag(env, "ROUTECRAB_METRICS_ENABLED"@) matches Some(b) ==> self.metrics_enabled
            == b
    }

    /// Reads the configuration from key-value pairs such as the process
    /// environment. Unknown keys are ignored; a later pair with the same key
    /// wins; missing or unparseable values fall back to their defaults.
    pub fn from_iter(vars: Vec<(String, String)>) -> (c: Config)
        ensures
            c.from_settings(settings(vars@)),
            c.flags_case_insensitive(settings(vars@)),
    {
        Config::from_map(&vars)
    }

    fn from_map(vars: &Vec<(String, String)>) -> (c: Config)
        ensures
            c.from_settings(settings(vars@)),
            c.flags_case_insensitive(settings(vars@)),
    {
        let no_namespaces: Vec<String> = Vec::new();
        assert(string_views(no_namespaces@) =~= Seq::<Seq<char>>::empty());
        let allow = env_csv(vars, "ROUTECRAB_NAMESPACE_ALLOWLIST", no_namespaces);
        let deny = env_csv(vars, "ROUTECRAB_NAMESPACE_DENYLIST", default_denylist_vec());
        let health_interval = env_dur(vars, "ROUTECRAB_HEALTH_INTERVAL", Duration::from_secs(30));
        let health_timeout = env_dur(vars, "ROUTECRAB_HEALTH_TIMEOUT", Duration::from_secs(5));
        let resync_interval = env_dur(
            vars,
            "ROUTECRAB_RESYNC_INTERVAL",
            Duration::from_secs(1800),
        );
        Config {
            port: env_u16(vars, "ROUTECRAB_PORT", 8080),
            address: env_str(vars, "ROUTECRAB_ADDRESS", "0.0.0.0"),
            title: env_str(vars, "ROUTECRAB_TITLE", "routecrab"),
            log_level: env_str(vars, "ROUTECRAB_LOG_LEVEL", "info"),
            log_format: env_str(vars, "ROUTECRAB_LOG_FORMAT", "text"),
            health_enabled: env_bool(vars, "ROUTECRAB_HEALTH_ENABLED", true),
            health_interval,
            health_timeout,
            resync_interval,
            namespace_allowlist: allow,
            namespace_denylist: deny,
            metrics_enabled: env_bool(vars, "ROUTECRAB_METRICS_ENABLED", true),
            metrics_port: env_u16(vars, "ROUTECRAB_METRICS_PORT", 9090),
            metrics_address: env_str(vars, "ROUTECRAB_METRICS_ADDRESS", "0.0.0.0"),
        }
    }
}

/// Each setting is read from its own `ROUTECRAB_*` key: a present key gives
/// the field its value (for a port, when it parses as one), a missing key
/// gives the documented default.
pub proof fn lemma_settings_read_own_keys(c: Config, env: Map<Seq<char>, Seq<char>>)
    requires
        c.from_settings(env),
    ensures
        env.dom().contains("ROUTECRAB_ADDRESS"@) ==> c.address@ == env["ROUTECRAB_ADDRESS"@],
        !env.dom().contains("ROUTECRAB_ADDRESS"@) ==> c.address@ == "0.0.0.0"@,
        env.dom().contains("ROUTECRAB_TITLE"@) ==> c.title@ == env["ROUTECRAB_TITLE"@],
        !env.dom().contains("ROUTECRAB_TITLE"@) ==> c.title@ == "routecrab"@,
        env.dom().contains("ROUTECRAB_LOG_LEVEL"@) ==> c.log_level@ == env["ROUTECRAB_LOG_LEVEL"@],
        !env.dom().contains("ROUTECRAB_LOG_LEVEL"@) ==> c.log_level@ == "info"@,
        env.dom().contains("ROUTECRAB_LOG_FORMAT"@) ==> c.log_format@ == env["ROUTECRAB_LOG_FORMAT"@],
        !env.dom().contains("ROUTECRAB_LOG_FORMAT"@) ==> c.log_format@ == "text"@,
        env.dom().contains("ROUTECRAB_METRICS_ADDRESS"@) ==> c.metrics_address@ == env["ROUTECRAB_METRICS_ADDRESS"@],
        !env.dom().contains("ROUTECRAB_METRICS_ADDRESS"@) ==> c.metrics_address@ == "0.0.0.0"@,
        env.dom().contains("ROUTECRAB_PORT"@) ==> (parse_u16_spec(env["ROUTECRAB_PORT"@]) matches Some(p) ==> c.port == p),
        !env.dom().contains("ROUTECRAB_PORT"@) ==> c.port == 8080,
        env.dom().contains("ROUTECRAB_METRICS_PORT"@) ==> (parse_u16_spec(env["ROUTECRAB_METRICS_PORT"@]) matches Some(p) ==> c.metrics_port == p),
        !env.dom().contains("ROUTECRAB_METRICS_PORT"@) ==> c.metrics_port == 9090,
        !env.dom().contains("ROUTECRAB_HEALTH_ENABLED"@) ==> c.health_enabled,
        !env.dom().contains("ROUTECRAB_METRICS_ENABLED"@) ==> c.metrics_enabled,
        !env.dom().contains("ROUTECRAB_HEALTH_INTERVAL"@) ==> duration_parts(c.health_interval) == (30u64, 0u32),
        !env.dom().contains("ROUTECRAB_HEALTH_TIMEOUT"@) ==> duration_parts(c.health_timeout) == (5u64, 0u32),
        !env.dom().contains("ROUTECRAB_RESYNC_INTERVAL"@) ==> duration_parts(c.resync_interval) == (1800u64, 0u32),
        env.dom().contains("ROUTECRAB_NAMESPACE_ALLOWLIST"@) ==> string_views(c.namespace_allowlist@) == csv_items(env["ROUTECRAB_NAMESPACE_ALLOWLIST"@]),
        !env.dom().contains("ROUTECRAB_NAMESPACE_ALLOWLIST"@) ==> c.namespace_allowlist.len() == 0,
        env.dom().contains("ROUTECRAB_NAMESPACE_DENYLIST"@) ==> string_views(c.namespace_denylist@) == csv_items(env["ROUTECRAB_NAMESPACE_DENYLIST"@]),
        !env.dom().contains("ROUTECRAB_NAMESPACE_DENYLIST"@) ==> string_views(c.namespace_denylist@) == seq!["kube-system"@, "kube-public"@, "kube-node-lease"@],
{
    assert(string_views(c.namespace_allowlist@).len() == c.namespace_allowlist@.len());
}

/// Every field depends on its own key alone: two configurations read from
/// settings that agree on a field's key agree on that field, whatever the
/// other keys hold (so `ROUTECRAB_ADDRESS` does not move the metrics listener).
pub proof fn lemma_fields_follow_own_keys(
    c1: Config,
    e1: Map<Seq<char>, Seq<char>>,
    c2: Config,
    e2: Map<Seq<char>, Seq<char>>,
)
    requires
        c1.from_settings(e1),
        c2.from_settings(e2),
    ensures
        setting(e1, "ROUTECRAB_PORT"@) == setting(e2, "ROUTECRAB_PORT"@) ==> c1.port == c2.port,
        setting(e1, "ROUTECRAB_ADDRESS"@) == setting(e2, "ROUTECRAB_ADDRESS"@) ==> c1.address@ == c2.address@,
        setting(e1, "ROUTECRAB_TITLE"@) == setting(e2, "ROUTECRAB_TITLE"@) ==> c1.title@ == c2.title@,
        setting(e1, "ROUTECRAB_LOG_LEVEL"@) == setting(e2, "ROUTECRAB_LOG_LEVEL"@) ==> c1.log_level@ == c2.log_level@,
        setting(e1, "ROUTECRAB_LOG_FORMAT"@) == setting(e2, "ROUTECRAB_LOG_FORMAT"@) ==> c1.log_format@ == c2.log_format@,
        setting(e1, "ROUTECRAB_HEALTH_ENABLED"@) == setting(e2, "ROUTECRAB_HEALTH_ENABLED"@) ==> c1.health_enabled == c2.health_enabled,
        setting(e1, "ROUTECRAB_HEALTH_INTERVAL"@) == setting(e2, "ROUTECRAB_HEALTH_INTERVAL"@) ==> duration_parts(c1.health_interval) == duration_parts(c2.health_interval),
        setting(e1, "ROUTECRAB_HEALTH_TIMEOUT"@) == setting(e2, "ROUTECRAB_HEALTH_TIMEOUT"@) ==> duration_parts(c1.health_timeout) == duration_parts(c2.health_timeout),
        setting(e1, "ROUTECRAB_RESYNC_INTERVAL"@) == setting(e2, "ROUTECRAB_RESYNC_INTERVAL"@) ==> duration_parts(c1.resync_interval) == duration_parts(c2.resync_interval),
        setting(e1, "ROUTECRAB_NAMESPACE_ALLOWLIST"@) == setting(e2, "ROUTECRAB_NAMESPACE_ALLOWLIST"@) ==> string_views(c1.namespace_allowlist@) == string_views(c2.namespace_allowlist@),
        setting(e1, "ROUTECRAB_NAMESPACE_DENYLIST"@) == setting(e2, "ROUTECRAB_NAMESPACE_DENYLIST"@) ==> string_views(c1.namespace_denylist@) == string_views(c2.namespace_denylist@),
        setting(e1, "ROUTECRAB_METRICS_ENABLED"@) == setting(e2, "ROUTECRAB_METRICS_ENABLED"@) ==> c1.metrics_enabled == c2.metrics_enabled,
        setting(e1, "ROUTECRAB_METRICS_PORT"@) == setting(e2, "ROUTECRAB_METRICS_PORT"@) ==> c1.metrics_port == c2.metrics_port,
        setting(e1, "ROUTECRAB_METRICS_ADDRESS"@) == setting(e2, "ROUTECRAB_METRICS_ADDRESS"@) ==> c1.metrics_address@ == c2.metrics_address@,
{
}

impl Default for Config {
    fn default() -> (c: Config)
        ensures
            c.from_settings(Map::empty()),
    {
        let c = Config::from_iter(Vec::new());
        assert(pair_views(Seq::<(String, String)>::empty()) =~= Seq::empty());
        c
    }
}

fn default_denylist_vec() -> (r: Vec<String>)
    ensures
        string_views(r@) == default_denylist(),
{
    let mut r: Vec<String> = Vec::new();
    r.push(String::from_str("kube-system"));
    r.push(String::from_str("kube-public"));
    r.push(String::from_str("kube-node-lease"));
    assert(string_views(r@) =~= default_denylist());
    r
}

/// The `u16` setting `key`, or `default`.
fn env_u16(vars: &Vec<(String, String)>, key: &str, default: u16) -> (r: u16)
    ensures
        r == u16_setting(settings(vars@), key@, default),
{
    match lookup_pair(vars, key) {
        Some(v) => match parse_u16(v.as_str()) {
            Some(p) => p,
            None => default,
        },
        None => default,
    }
}

/// The text setting `key`, or `default`.
fn env_str(vars: &Vec<(String, String)>, key: &str, default: &str) -> (r: String)
    ensures
        r@ == text_setting(settings(vars@), key@, default@),
{
    match lookup_pair(vars, key) {
        Some(v) => v.clone(),
        None => String::from_str(default),
    }
}

/// The boolean setting `key` (`true` in any letter case), or `default`.
fn env_bool(vars: &Vec<(String, String)>, key: &str, default: bool) -> (r: bool)
    ensures
        r == bool_setting(settings(vars@), key@, default),
        ascii_flag(settings(vars@), key@) matches Some(b) ==> r == b,
{
    match lookup_pair(vars, key) {
        Some(v) => {
            let l = to_lowercase(v.as_str());
            str_eq(l.as_str(), "true")
        },
        None => default,
    }
}

/// The duration setting `key`, or `default`.
fn env_dur(vars: &Vec<(String, String)>, key: &str, default: Duration) -> (r: Duration)
    ensures
        duration_parts(r) == duration_setting(settings(vars@), key@, duration_parts(default)),
{
    match lookup_pair(vars, key) {
        Some(v) => if duration_text_fits(v.as_str()) {
            match parse_duration(v.as_str()) {
                Some(d) => d,
                None => default,
            }
        } else {
            default
        },
        None => default,
    }
}

/// The list setting `key`, or `default`.
fn env_csv(vars: &Vec<(String, String)>, key: &str, default: Vec<String>) -> (r: Vec<String>)
    ensures
        string_views(r@) == list_setting(settings(vars@), key@, string_views(default@)),
{
    match lookup_pair(vars, key) {
        Some(v) => csv_list(v.as_str()),
        None => default,
    }
}

} // verus!
