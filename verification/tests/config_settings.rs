use std::time::Duration;

use routecrab::config::Config;

fn pair(k: &str, v: &str) -> (String, String) {
    (k.to_string(), v.to_string())
}

#[test]
fn defaults_when_unset() {
    let c = Config::from_iter(Vec::new());
    assert_eq!(c.port, 8080);
    assert_eq!(c.log_format, "text");
    assert_eq!(
        c.namespace_denylist,
        vec!["kube-system", "kube-public", "kube-node-lease"]
    );
}

#[test]
fn json_format_from_env() {
    let c = Config::from_iter(vec![(
        "ROUTECRAB_LOG_FORMAT".to_string(),
        "json".to_string(),
    )]);
    assert_eq!(c.log_format, "json");
}

#[test]
fn metrics_defaults_and_override() {
    let c = Config::from_iter(Vec::new());
    assert!(c.metrics_enabled);
    assert_eq!(c.metrics_port, 9090);
    assert_eq!(c.metrics_address, "0.0.0.0");

    let c = Config::from_iter(vec![
        ("ROUTECRAB_METRICS_ENABLED".to_string(), "false".to_string()),
        ("ROUTECRAB_METRICS_PORT".to_string(), "9100".to_string()),
    ]);
    assert!(!c.metrics_enabled);
    assert_eq!(c.metrics_port, 9100);
}

#[test]
fn default_matches_empty_settings() {
    let c = Config::default();
    assert_eq!(c.port, 8080);
    assert_eq!(c.address, "0.0.0.0");
    assert_eq!(c.title, "routecrab");
    assert_eq!(c.log_level, "info");
    assert!(c.health_enabled);
    assert_eq!(c.health_interval, Duration::from_secs(30));
    assert_eq!(c.health_timeout, Duration::from_secs(5));
    assert_eq!(c.resync_interval, Duration::from_secs(1800));
    assert!(c.namespace_allowlist.is_empty());
}

#[test]
fn durations_use_humantime_and_fall_back() {
    let c = Config::from_iter(vec![
        pair("ROUTECRAB_HEALTH_INTERVAL", "1h 30m"),
        pair("ROUTECRAB_HEALTH_TIMEOUT", "not a duration"),
    ]);
    assert_eq!(c.health_interval, Duration::from_secs(5400));
    assert_eq!(c.health_timeout, Duration::from_secs(5));
    let c = Config::from_iter(vec![pair("ROUTECRAB_HEALTH_TIMEOUT", "250ms")]);
    assert_eq!(c.health_timeout, Duration::from_millis(250));
}

#[test]
fn booleans_are_true_case_insensitively() {
    let c = Config::from_iter(vec![pair("ROUTECRAB_HEALTH_ENABLED", "TRUE")]);
    assert!(c.health_enabled);
    let c = Config::from_iter(vec![pair("ROUTECRAB_HEALTH_ENABLED", "yes")]);
    assert!(!c.health_enabled);
    let c = Config::from_iter(vec![pair("ROUTECRAB_METRICS_ENABLED", "1")]);
    assert!(!c.metrics_enabled);
}

#[test]
fn ports_parse_like_u16() {
    let c = Config::from_iter(vec![pair("ROUTECRAB_PORT", "+8081")]);
    assert_eq!(c.port, 8081);
    let c = Config::from_iter(vec![pair("ROUTECRAB_PORT", "70000")]);
    assert_eq!(c.port, 8080);
    let c = Config::from_iter(vec![pair("ROUTECRAB_PORT", "-1")]);
    assert_eq!(c.port, 8080);
    let c = Config::from_iter(vec![pair("ROUTECRAB_PORT", "")]);
    assert_eq!(c.port, 8080);
    let c = Config::from_iter(vec![pair("ROUTECRAB_PORT", "65535")]);
    assert_eq!(c.port, 65535);
}

#[test]
fn lists_are_split_trimmed_and_cleaned() {
    let c = Config::from_iter(vec![pair("ROUTECRAB_NAMESPACE_ALLOWLIST", " prod , ,staging,\tqa ,")]);
    assert_eq!(c.namespace_allowlist, vec!["prod", "staging", "qa"]);
    let c = Config::from_iter(vec![pair("ROUTECRAB_NAMESPACE_DENYLIST", "")]);
    assert!(c.namespace_denylist.is_empty());
}

#[test]
fn later_setting_wins() {
    let c = Config::from_iter(vec![
        pair("ROUTECRAB_TITLE", "first"),
        pair("ROUTECRAB_TITLE", "second"),
        pair("UNRELATED", "x"),
    ]);
    assert_eq!(c.title, "second");
}

#[test]
fn switches_are_case_insensitive() {
    let c = Config::from_iter(vec![
        pair("ROUTECRAB_HEALTH_ENABLED", "TRUE"),
        pair("ROUTECRAB_METRICS_ENABLED", "True"),
    ]);
    assert!(c.health_enabled);
    assert!(c.metrics_enabled);
    let d = Config::from_iter(vec![
        pair("ROUTECRAB_HEALTH_ENABLED", "yes"),
        pair("ROUTECRAB_METRICS_ENABLED", "FALSE"),
    ]);
    assert!(!d.health_enabled);
    assert!(!d.metrics_enabled);
}

#[test]
fn long_duration_values_are_read() {
    let c = Config::from_iter(vec![
        pair("ROUTECRAB_HEALTH_INTERVAL", "000000000030s"),
        pair("ROUTECRAB_HEALTH_TIMEOUT", "123456789012ms"),
        pair("ROUTECRAB_RESYNC_INTERVAL", "100000000000s"),
    ]);
    assert_eq!(c.health_interval, Duration::from_secs(30));
    assert_eq!(c.health_timeout, Duration::from_millis(123456789012));
    assert_eq!(c.resync_interval, Duration::from_secs(100000000000));
    let d = Config::from_iter(vec![pair(
        "ROUTECRAB_HEALTH_INTERVAL",
        "1h 2m 3s 4ms 5us 6ns 7d 8w 9y 1.5h",
    )]);
    assert_eq!(
        d.health_interval,
        Duration::new(3600 + 120 + 3 + 7 * 86400 + 8 * 604800 + 9 * 31_557_600 + 5400, 4_005_006)
    );
}

#[test]
fn durations_near_the_overflow_fall_back_to_default() {
    let c = Config::from_iter(vec![
        pair("ROUTECRAB_HEALTH_INTERVAL", "18446744073709551615s 1000000000ns"),
        pair("ROUTECRAB_HEALTH_TIMEOUT", "600000000000s"),
    ]);
    assert_eq!(c.health_interval, Duration::from_secs(30));
    assert_eq!(c.health_timeout, Duration::from_secs(5));
}
