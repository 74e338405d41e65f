use routecrab::model::{HealthStatus, Route};
use routecrab::store::{Change, Store};

fn route(id: &str, group: &str, order: i32, name: &str) -> Route {
    Route {
        id: id.into(),
        group: group.into(),
        order,
        name: name.into(),
        ..Default::default()
    }
}

#[test]
fn upsert_emits_change_and_lists() {
    let mut s = Store::new();
    let change = s.upsert(Route {
        id: "a".into(),
        ..Default::default()
    });
    assert!(matches!(change, Change::Upsert(_)));
    assert_eq!(s.list().len(), 1);
}

#[test]
fn remove_emits_change() {
    let mut s = Store::new();
    let _ = s.upsert(Route {
        id: "b".into(),
        ..Default::default()
    });
    let change = s.remove("b");
    assert!(matches!(change, Change::Remove(_)));
    assert_eq!(s.list().len(), 0);
}

#[test]
fn set_health_updates_in_place_and_emits() {
    let mut s = Store::new();
    let _ = s.upsert(Route {
        id: "c".into(),
        ..Default::default()
    });
    match s.set_health("c", HealthStatus::Healthy) {
        Some(Change::Upsert(r)) => assert_eq!(r.health, HealthStatus::Healthy),
        _ => panic!("expected Upsert"),
    }
    assert_eq!(s.list()[0].health, HealthStatus::Healthy);
}

#[test]
fn list_sorted_by_group_order_name() {
    let mut s = Store::new();
    let _ = s.upsert(route("1", "b", 1, "z"));
    let _ = s.upsert(route("2", "a", 2, "m"));
    let _ = s.upsert(route("3", "a", 1, "n"));
    let _ = s.upsert(route("4", "a", 1, "a"));
    let list = s.list();
    assert_eq!(list[0].id, "4");
    assert_eq!(list[1].id, "3");
    assert_eq!(list[2].id, "2");
    assert_eq!(list[3].id, "1");
}

#[test]
fn set_health_on_missing_id_is_a_no_op() {
    let mut s = Store::new();
    let _ = s.upsert(route("x", "g", 0, "x"));
    assert!(s.set_health("nope", HealthStatus::Unhealthy).is_none());
    assert_eq!(s.list()[0].health, HealthStatus::Unknown);
}

#[test]
fn upsert_replaces_in_place_and_remove_keeps_order() {
    let mut s = Store::new();
    let _ = s.upsert(route("1", "g", 0, "same"));
    let _ = s.upsert(route("2", "g", 0, "same"));
    let _ = s.upsert(route("3", "g", 0, "same"));
    let mut again = route("1", "g", 0, "same");
    again.title = "updated".into();
    let _ = s.upsert(again);
    assert_eq!(s.len(), 3);
    let ids: Vec<String> = s.list().into_iter().map(|r| r.id).collect();
    assert_eq!(ids, vec!["1", "2", "3"], "equal keys keep table order");
    assert_eq!(s.list()[0].title, "updated");
    match s.remove("2") {
        Change::Remove(id) => assert_eq!(id, "2"),
        _ => panic!("expected Remove"),
    }
    let ids: Vec<String> = s.list().into_iter().map(|r| r.id).collect();
    assert_eq!(ids, vec!["1", "3"]);
    let _ = s.remove("missing");
    assert_eq!(s.len(), 2);
}

#[test]
fn list_orders_text_by_code_point() {
    let mut s = Store::new();
    let _ = s.upsert(route("1", "b", 0, "x"));
    let _ = s.upsert(route("2", "B", 0, "x"));
    let _ = s.upsert(route("3", "", 0, "x"));
    let _ = s.upsert(route("4", "ba", -1, "x"));
    let _ = s.upsert(route("5", "b", -3, "y"));
    let ids: Vec<String> = s.list().into_iter().map(|r| r.id).collect();
    assert_eq!(ids, vec!["3", "2", "5", "1", "4"]);
}
