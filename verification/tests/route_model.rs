use routecrab::model::{is_http_url, Annotations, HealthStatus, Route};

fn ann(pairs: &[(&str, &str)]) -> Annotations {
    let mut a = Annotations::new();
    for (k, v) in pairs {
        a.insert(k.to_string(), v.to_string());
    }
    a
}

#[test]
fn display_title_falls_back_to_name() {
    let r = Route {
        name: "auth-server".into(),
        title: String::new(),
        ..Default::default()
    };
    assert_eq!(r.display_title(), "auth-server");
}

#[test]
fn url_annotation_rejects_non_http_scheme() {
    let mut r = Route::default();
    let mut a = Annotations::new();
    a.insert("routecrab.io/url".into(), "javascript:alert(1)".into());
    r.apply_annotations(&a);
    assert_eq!(r.url, "", "javascript: url must be rejected");

    let mut a2 = Annotations::new();
    a2.insert("routecrab.io/url".into(), "https://app.example.com/".into());
    r.apply_annotations(&a2);
    assert_eq!(
        r.url, "https://app.example.com/",
        "https url must be accepted"
    );
}

#[test]
fn health_false_disables_monitor() {
    let mut r = Route::default();
    let mut a = Annotations::new();
    a.insert("routecrab.io/health".into(), "false".into());
    r.apply_annotations(&a);
    assert!(r.monitor_disabled);
}

#[test]
fn hidden_and_group() {
    let mut r = Route::default();
    let mut a = Annotations::new();
    a.insert("routecrab.io/hidden".into(), "true".into());
    a.insert("routecrab.io/group".into(), "infra".into());
    r.apply_annotations(&a);
    assert!(r.hidden);
    assert_eq!(r.group, "infra");
}

#[test]
fn health_url_and_path_annotations() {
    let mut r = Route::default();
    let mut a = Annotations::new();
    a.insert(
        "routecrab.io/health-url".into(),
        "https://svc/internal/health".into(),
    );
    a.insert("routecrab.io/health-path".into(), "/healthz".into());
    r.apply_annotations(&a);
    assert_eq!(r.health_url, "https://svc/internal/health");
    assert_eq!(r.health_path, "/healthz");
}

#[test]
fn display_title_prefers_title() {
    let r = Route {
        name: "grafana".into(),
        title: "Grafana".into(),
        ..Default::default()
    };
    assert_eq!(r.display_title(), "Grafana");
}

#[test]
fn all_annotations_apply() {
    let mut r = Route {
        order: 3,
        ..Default::default()
    };
    r.apply_annotations(&ann(&[
        ("routecrab.io/title", "Payment API"),
        ("routecrab.io/description", "Pays"),
        ("routecrab.io/icon", "stripe"),
        ("routecrab.io/order", "-10"),
        ("routecrab.io/url", "  HTTPS://api.example.com/pay"),
        ("routecrab.io/health", "FALSE"),
        ("routecrab.io/hidden", "True"),
        ("routecrab.io/unknown", "x"),
    ]));
    assert_eq!(r.title, "Payment API");
    assert_eq!(r.description, "Pays");
    assert_eq!(r.icon, "stripe");
    assert_eq!(r.order, -10);
    assert_eq!(r.url, "  HTTPS://api.example.com/pay");
    assert!(!r.monitor_disabled, "only exactly `false` disables monitoring");
    assert!(!r.hidden, "only exactly `true` hides");
}

#[test]
fn bad_order_keeps_previous_value() {
    for bad in ["abc", "2147483648", "+", "", "1.5"] {
        let mut r = Route {
            order: 7,
            ..Default::default()
        };
        r.apply_annotations(&ann(&[("routecrab.io/order", bad)]));
        assert_eq!(r.order, 7, "{bad} must be ignored");
    }
    let mut r = Route::default();
    r.apply_annotations(&ann(&[("routecrab.io/order", "-2147483648")]));
    assert_eq!(r.order, i32::MIN);
}

#[test]
fn applying_twice_is_applying_once() {
    let a = ann(&[
        ("routecrab.io/title", "T"),
        ("routecrab.io/url", "data:text/html,x"),
        ("routecrab.io/order", "4"),
    ]);
    let mut once = Route {
        url: "https://keep.example.com/".into(),
        ..Default::default()
    };
    once.apply_annotations(&a);
    let mut twice = once.duplicate();
    twice.apply_annotations(&a);
    assert_eq!(once.title, twice.title);
    assert_eq!(once.url, "https://keep.example.com/");
    assert_eq!(twice.url, "https://keep.example.com/");
    assert_eq!(twice.order, 4);
}

#[test]
fn annotations_insert_replaces_value() {
    let mut a = Annotations::new();
    a.insert("routecrab.io/url".into(), "https://ok.example.com/".into());
    a.insert("routecrab.io/url".into(), "javascript:void(0)".into());
    assert_eq!(a.get("routecrab.io/url").map(|s| s.as_str()), Some("javascript:void(0)"));
    let mut r = Route::default();
    r.apply_annotations(&a);
    assert_eq!(r.url, "");
}

#[test]
fn http_url_check() {
    assert!(is_http_url("http://a"));
    assert!(is_http_url(" \tHttps://a"));
    assert!(!is_http_url("ftp://a"));
    assert!(!is_http_url("https:/a"));
}

#[test]
fn health_status_names() {
    assert_eq!(HealthStatus::Unknown.as_str(), "unknown");
    assert_eq!(HealthStatus::Healthy.as_str(), "healthy");
    assert_eq!(HealthStatus::Degraded.as_str(), "degraded");
    assert_eq!(HealthStatus::Unhealthy.as_str(), "unhealthy");
    assert_eq!(HealthStatus::default(), HealthStatus::Unknown);
}
