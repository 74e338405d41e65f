use routecrab::config::Config;
use routecrab::k8s::{
    namespace_allowed, route_from_httproute, watch_step, HttpRouteInfo, PathMatch, RouteRule,
    WatchAction, WatchEvent,
};
use routecrab::model::Annotations;

fn cfg_with(allowlist: Vec<&str>, denylist: Vec<&str>) -> Config {
    let allow_csv = allowlist.join(",");
    let deny_csv = denylist.join(",");
    Config::from_iter(vec![
        ("ROUTECRAB_NAMESPACE_ALLOWLIST".to_string(), allow_csv),
        ("ROUTECRAB_NAMESPACE_DENYLIST".to_string(), deny_csv),
    ])
}

/// The `HTTPRoute` of the discovery fixture: `demo/app`, host
/// `app.example.com`, one rule matching path prefix `/`.
fn fixture() -> HttpRouteInfo {
    HttpRouteInfo {
        namespace: Some("demo".into()),
        name: Some("app".into()),
        annotations: None,
        hostnames: Some(vec!["app.example.com".into()]),
        rules: Some(vec![RouteRule {
            matches: Some(vec![PathMatch {
                path: Some("/".into()),
            }]),
        }]),
    }
}

#[test]
fn maps_hostname_and_annotations() {
    let hr = fixture();
    let r = route_from_httproute(&hr);
    assert_eq!(r.namespace, "demo");
    assert_eq!(r.url, "https://app.example.com/");
    assert_eq!(r.group, "demo");
}

#[test]
fn maps_ids_paths_and_annotations() {
    let mut ann = Annotations::new();
    ann.insert("routecrab.io/group".into(), "Observability".into());
    ann.insert("routecrab.io/title".into(), "Grafana".into());
    ann.insert("other.io/title".into(), "ignored".into());
    let hr = HttpRouteInfo {
        namespace: Some("monitoring".into()),
        name: Some("grafana".into()),
        annotations: Some(ann),
        hostnames: Some(vec!["grafana.example.com".into(), "g.example.com".into()]),
        rules: Some(vec![
            RouteRule {
                matches: Some(vec![
                    PathMatch { path: Some("/dash".into()) },
                    PathMatch { path: None },
                    PathMatch { path: Some("/api".into()) },
                ]),
            },
            RouteRule { matches: None },
            RouteRule {
                matches: Some(vec![PathMatch { path: Some("/x".into()) }]),
            },
        ]),
    };
    let r = route_from_httproute(&hr);
    assert_eq!(r.id, "monitoring/grafana");
    assert_eq!(r.name, "grafana");
    assert_eq!(r.url, "https://grafana.example.com/dash");
    assert_eq!(r.hosts, vec!["grafana.example.com", "g.example.com"]);
    assert_eq!(r.paths, vec!["/dash", "/api", "/x"]);
    assert_eq!(r.group, "Observability");
    assert_eq!(r.title, "Grafana");
}

#[test]
fn no_host_gives_no_url_and_missing_path_gives_slash() {
    let hr = HttpRouteInfo {
        namespace: None,
        name: Some("n".into()),
        annotations: None,
        hostnames: None,
        rules: None,
    };
    let r = route_from_httproute(&hr);
    assert_eq!(r.id, "/n");
    assert_eq!(r.url, "");
    let hr = HttpRouteInfo {
        namespace: Some("ns".into()),
        name: Some("n".into()),
        annotations: None,
        hostnames: Some(vec!["h.example.com".into()]),
        rules: Some(vec![RouteRule { matches: Some(vec![]) }]),
    };
    assert_eq!(route_from_httproute(&hr).url, "https://h.example.com/");
}

#[test]
fn namespace_in_denylist_is_rejected() {
    let cfg = cfg_with(vec![], vec!["kube-system"]);
    assert!(!namespace_allowed("kube-system", &cfg));
}

#[test]
fn namespace_not_in_allowlist_is_rejected() {
    let cfg = cfg_with(vec!["production"], vec![]);
    assert!(!namespace_allowed("staging", &cfg));
}

#[test]
fn empty_allowlist_and_not_denied_is_accepted() {
    let cfg = cfg_with(vec![], vec!["kube-system"]);
    assert!(namespace_allowed("default", &cfg));
}

#[test]
fn deny_wins_over_allow() {
    let cfg = cfg_with(vec!["kube-system"], vec!["kube-system"]);
    assert!(!namespace_allowed("kube-system", &cfg));
}

#[test]
fn watch_events_become_store_actions() {
    let cfg = cfg_with(vec![], vec!["kube-system"]);
    match watch_step(&WatchEvent::Apply(fixture()), &cfg) {
        WatchAction::Upsert(r) => assert_eq!(r.id, "demo/app"),
        _ => panic!("expected an upsert"),
    }
    match watch_step(&WatchEvent::Delete(fixture()), &cfg) {
        WatchAction::Remove(id) => assert_eq!(id, "demo/app"),
        _ => panic!("expected a removal"),
    }
    let mut denied = fixture();
    denied.namespace = Some("kube-system".into());
    assert!(matches!(
        watch_step(&WatchEvent::InitApply(denied), &cfg),
        WatchAction::Ignore
    ));
    assert!(matches!(watch_step(&WatchEvent::Init, &cfg), WatchAction::Ignore));
    assert!(matches!(watch_step(&WatchEvent::InitDone, &cfg), WatchAction::Ignore));
}
