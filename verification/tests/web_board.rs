use routecrab::icons::{IconFile, IconIndex};
use routecrab::model::Route;
use routecrab::store::Store;
use routecrab::web::card::CardTemplate;
use routecrab::web::api::api_routes;
use routecrab::web::pages::{
    build_groups, group_routes_with_icons, mime_type, year_of_epoch_secs, BoardQuery,
};

fn icons() -> IconIndex {
    IconIndex::from_files(&vec![IconFile {
        name: "grafana.svg".into(),
        data: b"<svg>g</svg>".to_vec(),
    }])
}

fn route(id: &str, group: &str, name: &str) -> Route {
    Route {
        id: id.into(),
        group: group.into(),
        name: name.into(),
        ..Default::default()
    }
}

#[test]
fn groups_follow_consecutive_runs() {
    let items = vec![
        (route("1", "a", "x"), String::new()),
        (route("2", "a", "y"), String::new()),
        (route("3", "b", "z"), String::new()),
        (route("4", "a", "w"), String::new()),
    ];
    let groups = group_routes_with_icons(items);
    let names: Vec<&str> = groups.iter().map(|g| g.0.as_str()).collect();
    assert_eq!(names, vec!["a", "b", "a"]);
    assert_eq!(groups[0].1.len(), 2);
    assert_eq!(groups[1].1[0].0.id, "3");
    assert!(group_routes_with_icons(Vec::new()).is_empty());
}

#[test]
fn board_hides_hidden_and_filters_search() {
    let mut s = Store::new();
    let _ = s.upsert(route("m/grafana", "monitoring", "grafana"));
    let mut hidden = route("m/secret", "monitoring", "secret");
    hidden.hidden = true;
    let _ = s.upsert(hidden);
    let mut described = route("p/api", "prod", "api");
    described.description = "Payment Gateway".into();
    let _ = s.upsert(described);

    let all = build_groups(&s, &icons(), "");
    let ids: Vec<&str> = all.iter().flat_map(|g| g.1.iter().map(|e| e.0.id.as_str())).collect();
    assert_eq!(ids, vec!["m/grafana", "p/api"]);
    assert_eq!(all[0].1[0].1, "<svg>g</svg>");
    assert_eq!(all[1].1[0].1, "");

    let found = build_groups(&s, &icons(), "  GATEWAY ");
    assert_eq!(found.len(), 1);
    assert_eq!(found[0].0, "prod");

    let none = build_groups(&s, &icons(), "secret");
    assert!(none.is_empty());
}

#[test]
fn card_resolves_icon() {
    let r = route("m/grafana", "monitoring", "Grafana");
    let idx = icons();
    let card = CardTemplate::for_route(&r, &idx);
    assert_eq!(card.route.id, "m/grafana");
    assert_eq!(card.icon_url, "<svg>g</svg>");
    let other = route("x", "g", "unknown");
    assert_eq!(CardTemplate::for_route(&other, &idx).icon_url, "");
}

#[test]
fn mime_types_by_extension() {
    assert_eq!(mime_type("app.css"), "text/css; charset=utf-8");
    assert_eq!(mime_type("htmx.min.js"), "application/javascript; charset=utf-8");
    assert_eq!(mime_type("index.htm"), "text/html; charset=utf-8");
    assert_eq!(mime_type("logo.png"), "image/png");
    assert_eq!(mime_type("icons/grafana.svg"), "image/svg+xml");
    assert_eq!(mime_type("favicon.ico"), "image/x-icon");
    assert_eq!(mime_type("data.bin"), "application/octet-stream");
    assert_eq!(BoardQuery::default().q, "");
}

#[test]
fn card_falls_back_to_icon_annotation_text() {
    let idx = icons();
    let mut r = route("x", "g", "unknown");
    r.icon = "mytool".into();
    assert_eq!(CardTemplate::for_route(&r, &idx).icon_url, "mytool");
    r.icon = "<b>&'x\"</b>".into();
    assert_eq!(
        CardTemplate::for_route(&r, &idx).icon_url,
        "&lt;b&gt;&amp;&#39;x&quot;&lt;/b&gt;"
    );
    r.icon = "Grafana".into();
    assert_eq!(CardTemplate::for_route(&r, &idx).icon_url, "<svg>g</svg>");
}

#[test]
fn api_lists_only_visible_routes_in_order() {
    let mut s = Store::new();
    s.upsert(route("3", "b", "z"));
    let mut hidden = route("2", "a", "y");
    hidden.hidden = true;
    s.upsert(hidden);
    s.upsert(route("1", "a", "x"));
    let ids: Vec<String> = api_routes(&s).into_iter().map(|r| r.id).collect();
    assert_eq!(ids, vec!["1".to_string(), "3".to_string()]);
    assert!(api_routes(&Store::new()).is_empty());
}

#[test]
fn footer_year_from_epoch_seconds() {
    assert_eq!(year_of_epoch_secs(0), 1970);
    assert_eq!(year_of_epoch_secs(1_700_000_000), 2023);
    assert_eq!(year_of_epoch_secs(31_556_951), 1970);
    assert_eq!(year_of_epoch_secs(31_556_952), 1971);
}

#[test]
fn each_group_appears_once_on_the_board() {
    let mut s = Store::new();
    s.upsert(route("1", "b", "x"));
    s.upsert(route("2", "a", "y"));
    s.upsert(route("3", "b", "a"));
    s.upsert(route("4", "a", "b"));
    let g = build_groups(&s, &icons(), "");
    let names: Vec<&str> = g.iter().map(|x| x.0.as_str()).collect();
    assert_eq!(names, vec!["a", "b"]);
    assert_eq!(g[0].1.len(), 2);
    assert_eq!(g[1].1.len(), 2);
}
