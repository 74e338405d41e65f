use std::time::Duration;

use routecrab::config::Config;
use routecrab::health::{
    classify, degraded_threshold, is_blocked_ip, is_blocked_target, plan_probe, probe_inputs_fit,
    probe_target, probing_enabled, should_check, IpLiteral, ProbePlan,
};
use routecrab::model::{HealthStatus, Route};

#[test]
fn classify_maps_codes() {
    assert_eq!(
        classify(Some(200), Duration::from_millis(10), Duration::from_secs(2)),
        HealthStatus::Healthy
    );
    assert_eq!(
        classify(Some(500), Duration::from_millis(10), Duration::from_secs(2)),
        HealthStatus::Unhealthy
    );
    assert_eq!(
        classify(Some(200), Duration::from_secs(5), Duration::from_secs(2)),
        HealthStatus::Degraded
    );
    assert_eq!(
        classify(None, Duration::from_millis(10), Duration::from_secs(2)),
        HealthStatus::Unhealthy
    );
}

#[test]
fn classify_boundaries() {
    assert_eq!(
        classify(Some(399), Duration::from_secs(2), Duration::from_secs(2)),
        HealthStatus::Healthy
    );
    assert_eq!(
        classify(Some(400), Duration::from_millis(1), Duration::from_secs(2)),
        HealthStatus::Unhealthy
    );
    assert_eq!(
        classify(Some(204), Duration::new(2, 1), Duration::from_secs(2)),
        HealthStatus::Degraded
    );
}

#[test]
fn degraded_threshold_is_half_the_timeout() {
    assert_eq!(degraded_threshold(Duration::from_secs(5)), Duration::from_millis(2500));
    assert_eq!(degraded_threshold(Duration::from_secs(4)), Duration::from_secs(2));
    assert_eq!(degraded_threshold(Duration::new(3, 1)), Duration::new(1, 500_000_000));
}

#[test]
fn skips_empty_url_and_disabled() {
    assert!(!should_check(&Route {
        url: "".into(),
        ..Default::default()
    }));
    assert!(!should_check(&Route {
        url: "http://x".into(),
        monitor_disabled: true,
        ..Default::default()
    }));
    assert!(should_check(&Route {
        url: "http://x".into(),
        ..Default::default()
    }));
}

#[test]
fn checks_health_url_only_route() {
    assert!(should_check(&Route {
        url: "".into(),
        health_url: "https://internal/healthz".into(),
        ..Default::default()
    }));
    assert!(!should_check(&Route {
        url: "".into(),
        health_url: "https://internal/healthz".into(),
        monitor_disabled: true,
        ..Default::default()
    }));
    assert!(!should_check(&Route {
        url: "".into(),
        health_path: "/healthz".into(),
        ..Default::default()
    }));
}

#[test]
fn hidden_routes_skip_check() {
    assert!(!should_check(&Route {
        url: "http://x".into(),
        hidden: true,
        ..Default::default()
    }));
    assert!(should_check(&Route {
        url: "http://x".into(),
        ..Default::default()
    }));
}

#[test]
fn blocks_ssrf_prone_targets() {
    for t in [
        "http://169.254.169.254/latest/meta-data/",
        "http://127.0.0.1:8080/",
        "https://localhost/healthz",
        "http://0.0.0.0/",
        "http://[::1]/",
        "http://[fe80::1]/",
        "not-a-url",
    ] {
        assert!(is_blocked_target(t), "{t} must be blocked");
    }
    for t in [
        "https://app.example.com/healthz",
        "http://10.0.0.5:9000/healthz",
        "http://192.168.1.10/health",
        "http://172.16.0.3/",
    ] {
        assert!(!is_blocked_target(t), "{t} must be allowed");
    }
}

#[test]
fn blocks_more_targets() {
    assert!(is_blocked_target("http://api.LOCALHOST/"));
    assert!(is_blocked_target("http://255.255.255.255/"));
    assert!(is_blocked_target("http://[::]/"));
    assert!(is_blocked_target("http://[febf::1]/"));
    assert!(!is_blocked_target("http://[fec0::1]/"));
    assert!(is_blocked_target("mailto:someone@example.com"));
    assert!(!is_blocked_target("http://localhost.example.com/"));
}

#[test]
fn probe_target_precedence() {
    assert_eq!(
        probe_target(&Route {
            url: "https://app.example.com/".into(),
            health_url: "https://app.example.com:9000/healthz".into(),
            ..Default::default()
        }),
        "https://app.example.com:9000/healthz"
    );
    assert_eq!(
        probe_target(&Route {
            url: "https://app.example.com/dashboard".into(),
            health_path: "/healthz".into(),
            ..Default::default()
        }),
        "https://app.example.com/healthz"
    );
    assert_eq!(
        probe_target(&Route {
            url: "https://app.example.com/".into(),
            ..Default::default()
        }),
        "https://app.example.com/"
    );
}

#[test]
fn probe_target_drops_query_and_keeps_unparseable_url() {
    assert_eq!(
        probe_target(&Route {
            url: "https://app.example.com/a?x=1".into(),
            health_path: "/ready".into(),
            ..Default::default()
        }),
        "https://app.example.com/ready"
    );
    assert_eq!(
        probe_target(&Route {
            url: "not a url".into(),
            health_path: "/ready".into(),
            ..Default::default()
        }),
        "not a url"
    );
}

#[test]
fn plan_probe_decides_per_route() {
    let hidden = Route {
        url: "https://app.example.com/".into(),
        hidden: true,
        ..Default::default()
    };
    assert!(matches!(plan_probe(&hidden), ProbePlan::Skip));
    let metadata = Route {
        url: "https://app.example.com/".into(),
        health_url: "http://169.254.169.254/".into(),
        ..Default::default()
    };
    assert!(matches!(
        plan_probe(&metadata),
        ProbePlan::Mark(HealthStatus::Unknown)
    ));
    let ok = Route {
        url: "https://app.example.com/".into(),
        ..Default::default()
    };
    match plan_probe(&ok) {
        ProbePlan::Probe(t) => assert_eq!(t, "https://app.example.com/"),
        _ => panic!("expected a probe"),
    }
}

#[test]
fn mapped_ipv4_addresses_are_judged_as_ipv4() {
    assert!(is_blocked_ip(&IpLiteral::V6(0, 0, 0, 0, 0, 0xffff, 0xa9fe, 0xa9fe)));
    assert!(is_blocked_ip(&IpLiteral::V6(0, 0, 0, 0, 0, 0xffff, 0x7f00, 0x0001)));
    assert!(is_blocked_ip(&IpLiteral::V6(0, 0, 0, 0, 0, 0xffff, 0, 0)));
    assert!(!is_blocked_ip(&IpLiteral::V6(0, 0, 0, 0, 0, 0xffff, 0x0a00, 0x0001)));
    assert!(!is_blocked_ip(&IpLiteral::V6(0, 0, 0, 0, 0, 0xfffe, 0xa9fe, 0xa9fe)));
    assert!(is_blocked_target("http://[::ffff:169.254.169.254]/latest/meta-data"));
    assert!(is_blocked_target("http://[::ffff:127.0.0.1]:8080/admin"));
    assert!(!is_blocked_target("http://[::ffff:10.0.0.5]/healthz"));
}

#[test]
fn ipv4_rules() {
    assert!(is_blocked_ip(&IpLiteral::V4(127, 1, 2, 3)));
    assert!(is_blocked_ip(&IpLiteral::V4(169, 254, 169, 254)));
    assert!(is_blocked_ip(&IpLiteral::V4(0, 0, 0, 0)));
    assert!(is_blocked_ip(&IpLiteral::V4(255, 255, 255, 255)));
    assert!(!is_blocked_ip(&IpLiteral::V4(192, 168, 1, 1)));
    assert!(is_blocked_ip(&IpLiteral::V6(0xfe80, 0, 0, 0, 0, 0, 0, 1)));
    assert!(is_blocked_ip(&IpLiteral::V6(0, 0, 0, 0, 0, 0, 0, 1)));
}

#[test]
fn ordinary_routes_fit_url_handling() {
    let r = Route {
        url: "https://grafana.example.com/dashboards?x=1".into(),
        health_path: "/api/health".into(),
        ..Default::default()
    };
    assert!(probe_inputs_fit(&r));
    let unparsed = Route {
        url: "not a url".into(),
        health_path: "/h".into(),
        ..Default::default()
    };
    assert!(probe_inputs_fit(&unparsed));
}

#[test]
fn probing_follows_the_health_switch() {
    let on = Config::from_iter(Vec::new());
    assert!(probing_enabled(&on));
    let off = Config::from_iter(vec![(
        "ROUTECRAB_HEALTH_ENABLED".to_string(),
        "false".to_string(),
    )]);
    assert!(!probing_enabled(&off));
}
