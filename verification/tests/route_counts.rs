use routecrab::model::{HealthStatus, Route};
use routecrab::observability::count_routes;

#[test]
fn count_routes_excludes_hidden() {
    let routes = vec![
        Route {
            url: "http://a".into(),
            health: HealthStatus::Healthy,
            ..Default::default()
        },
        Route {
            url: "http://b".into(),
            health: HealthStatus::Unhealthy,
            hidden: true,
            ..Default::default()
        },
        Route {
            url: "http://c".into(),
            health: HealthStatus::Degraded,
            ..Default::default()
        },
    ];
    let c = count_routes(&routes);
    assert_eq!(c.total, 2);
    assert_eq!(c.healthy, 1);
    assert_eq!(c.unhealthy, 0);
    assert_eq!(c.degraded, 1);
    assert_eq!(c.unknown, 0);
}

#[test]
fn counts_add_up_to_total() {
    let healths = [
        HealthStatus::Unknown,
        HealthStatus::Healthy,
        HealthStatus::Degraded,
        HealthStatus::Unhealthy,
        HealthStatus::Unknown,
    ];
    let routes: Vec<Route> = healths
        .iter()
        .map(|h| Route {
            health: *h,
            ..Default::default()
        })
        .collect();
    let c = count_routes(&routes);
    assert_eq!(c.total, 5);
    assert_eq!(c.healthy + c.degraded + c.unhealthy + c.unknown, c.total);
    assert_eq!(c.unknown, 2);
    assert_eq!(count_routes(&[]).total, 0);
}
