# routecrab

A Kubernetes dashboard that discovers Gateway API `HTTPRoute` resources,
health-checks them and serves a live board. This crate holds its logic as a
Verus-verified library; `app/` wires it to the cluster, HTTP and metrics.

Layout of `src/`:

- `text` — character-level text operations (trim, split, case, decimal parsing)
  with their specifications.
- `model` — routes, health status and `routecrab.io/*` annotations.
- `config` — `ROUTECRAB_*` settings with their defaults.
- `health` — probe eligibility, probe target, SSRF guard, classification.
- `icons` — slugs, aliases and the icon index.
- `k8s` — mapping an `HTTPRoute` to a route, namespace filtering, watch events.
- `store` — the route table and its sorted listing.
- `observability` — route counts for the gauges.
- `web` — board grouping and search, cards (vendored SVG, else the icon
  annotation as text), the `/api/routes` listing (all non-hidden routes), the
  debounced live-refresh steps of the SSE stream, asset content types.

`k8s-openapi` is a dependency only to select the Kubernetes API version
(`latest` feature) that `kube` and `gateway-api` build against.
