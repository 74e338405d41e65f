//! Route counts for the Prometheus gauges.
use vstd::prelude::*;

use crate::model::{HealthStatus, Route, RouteView};
use crate::store::route_views;

verus! {

/// Counts of routes by health. Hidden routes are not counted: hidden means
/// not surfaced anywhere, neither on the board nor in health or metrics.
pub struct RouteCounts {
    pub total: u32,
    pub healthy: u32,
    pub degraded: u32,
    pub unhealthy: u32,
    pub unknown: u32,
}

/// The number of visible routes.
pub open spec fn visible_count(s: Seq<RouteView>) -> nat
    decreases s.len(),
{
    if s.len() == 0 {
        0
    } else {
        visible_count(s.drop_last()) + if s.last().hidden {
            0nat
        } else {
            1nat
        }
    }
}

/// The number of visible routes whose health is `h`.
pub open spec fn health_count(s: Seq<RouteView>, h: HealthStatus) -> nat
    decreases s.len(),
{
    if s.len() == 0 {
        0
    } else {
        health_count(s.drop_last(), h) + if !s.last().hidden && s.last().health == h {
            1nat
        } else {
            0nat
        }
    }
}

proof fn lemma_counts_bounded(s: Seq<RouteView>, h: HealthStatus)
    ensures
        visible_count(s) <= s.len(),
        health_count(s, h) <= visible_count(s),
    decreases s.len(),
{
    if s.len() > 0 {
        lemma_counts_bounded(s.drop_last(), h);
    }
}

/// Counts the visible routes, in total and by health.
pub fn count_routes(routes: &[Route]) -> (c: RouteCounts)
    requires
        routes@.len() <= u32::MAX,
    ensures
        c.total == visible_count(route_views(routes@)),
        c.healthy == health_count(route_views(routes@), HealthStatus::Healthy),
        c.degraded == health_count(route_views(routes@), HealthStatus::Degraded),
        c.unhealthy == health_count(route_views(routes@), HealthStatus::Unhealthy),
        c.unknown == health_count(route_views(routes@), HealthStatus::Unknown),
{
    let ghost all = route_views(routes@);
    let mut c = RouteCounts { total: 0, healthy: 0, degraded: 0, unhealthy: 0, unknown: 0 };
    let mut i: usize = 0;
    assert(all.subrange(0, 0) =~= Seq::<RouteView>::empty());
    while i < routes.len()
        invariant
            all == route_views(routes@),
            routes@.len() <= u32::MAX,
            i <= routes.len(),
            c.total == visible_count(all.subrange(0, i as int)),
            c.healthy == health_count(all.subrange(0, i as int), HealthStatus::Healthy),
            c.degraded == health_count(all.subrange(0, i as int), HealthStatus::Degraded),
            c.unhealthy == health_count(all.subrange(0, i as int), HealthStatus::Unhealthy),
            c.unknown == health_count(all.subrange(0, i as int), HealthStatus::Unknown),
        decreases routes.len() - i,
    {
        let ghost pre = all.subrange(0, i as int);
        let ghost next = all.subrange(0, i + 1);
        assert(next.drop_last() =~= pre);
        assert(next.last() == routes@[i as int]@);
        proof {
            lemma_counts_bounded(pre, HealthStatus::Healthy);
            lemma_counts_bounded(pre, HealthStatus::Degraded);
            lemma_counts_bounded(pre, HealthStatus::Unhealthy);
            lemma_counts_bounded(pre, HealthStatus::Unknown);
        }
        let r = &routes[i];
        if !r.hidden {
            c.total = c.total + 1;
            match r.health {
                HealthStatus::Healthy => c.healthy = c.healthy + 1,
                HealthStatus::Degraded => c.degraded = c.degraded + 1,
                HealthStatus::Unhealthy => c.unhealthy = c.unhealthy + 1,
                HealthStatus::Unknown => c.unknown = c.unknown + 1,
            }
        }
        i = i + 1;
    }
    assert(all.subrange(0, routes.len() as int) =~= all);
    c
}

/// The gauges count what they say: the total is the number of routes that
/// are not hidden, and each health gauge the number of those with that health.
pub proof fn lemma_counts_are_filters(s: Seq<RouteView>, h: HealthStatus)
    ensures
        visible_count(s) == s.filter(|r: RouteView| !r.hidden).len(),
        health_count(s, h) == s.filter(|r: RouteView| !r.hidden && r.health == h).len(),
    decreases s.len(),
{
    reveal(Seq::filter);
    if s.len() > 0 {
        lemma_counts_are_filters(s.drop_last(), h);
    }
}

/// Every visible route has exactly one health: the counts by health add up
/// to the total.
pub proof fn lemma_counts_add_up(s: Seq<RouteView>)
    ensures
        visible_count(s) == health_count(s, HealthStatus::Healthy) + health_count(
            s,
            HealthStatus::Degraded,
        ) + health_count(s, HealthStatus::Unhealthy) + health_count(s, HealthStatus::Unknown),
    decreases s.len(),
{
    if s.len() > 0 {
        lemma_counts_add_up(s.drop_last());
    }
}

} // verus!
