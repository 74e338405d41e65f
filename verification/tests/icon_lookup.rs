use routecrab::icons::{canonical_slug, icon_for, slug_from_lowercase, slugify, IconFile, IconIndex};

fn svg_file(slug: &str) -> IconFile {
    IconFile {
        name: format!("{slug}.svg"),
        data: format!("<svg role=\"img\" viewBox=\"0 0 24 24\"><title>{slug}</title></svg>").into_bytes(),
    }
}

/// The vendored Simple Icons subset that the tests look up.
fn vendored() -> IconIndex {
    let files: Vec<IconFile> = [
        "grafana",
        "argo",
        "apachekafka",
        "fusionauth",
        "metabase",
        "rustfs",
        "victoriametrics",
        "kubernetes",
    ]
    .iter()
    .map(|s| svg_file(s))
    .collect();
    IconIndex::from_files(&files)
}

#[test]
fn known_icon_returns_svg() {
    let idx = vendored();
    let svg = icon_for(&idx, "grafana", "");
    assert!(svg.is_some(), "grafana icon should be vendored");
    assert!(
        svg.unwrap().contains("<svg"),
        "content should be an SVG element"
    );
}

#[test]
fn unknown_icon_returns_none() {
    let idx = vendored();
    assert_eq!(icon_for(&idx, "definitely-not-a-real-icon", ""), None);
}

#[test]
fn alias_resolves_argocd_to_argo() {
    let idx = vendored();
    let svg = icon_for(&idx, "argocd", "").expect("argocd should resolve via alias to argo");
    assert!(svg.contains("<svg"));
}

#[test]
fn newly_vendored_and_victoria_variants_resolve() {
    let idx = vendored();
    for name in ["fusionauth", "metabase", "rustfs", "victoriametrics"] {
        assert!(
            icon_for(&idx, name, "").is_some(),
            "{name} icon should be vendored"
        );
    }
    for name in ["victorialogs-vmui", "victoriametrics-vmui", "victorialogs"] {
        assert!(
            icon_for(&idx, name, "").is_some(),
            "{name} should alias to victoriametrics"
        );
    }
}

#[test]
fn override_slug_takes_precedence() {
    let idx = vendored();
    let svg = icon_for(&idx, "My Grafana", "grafana");
    assert!(svg.is_some(), "override slug should resolve");
    assert!(svg.unwrap().contains("<svg"));
}

#[test]
fn slugify_normalises_casing_and_spaces() {
    let idx = vendored();
    let svg = icon_for(&idx, "Grafana", "");
    assert!(svg.is_some(), "case-normalised lookup should work");
}

#[test]
fn slugify_strips_punctuation() {
    let idx = vendored();
    let svg = icon_for(&idx, "Apache Kafka", "");
    assert!(
        svg.is_some(),
        "'Apache Kafka' should resolve to apachekafka"
    );
}

#[test]
fn slugify_dot_to_dot_suffix() {
    assert_eq!(slugify("nats.io"), "natsdotio");
}

#[test]
fn slugify_plus_to_plus_word() {
    assert_eq!(slugify("c++"), "cplusplus");
}

#[test]
fn override_slug_is_case_insensitive() {
    let idx = vendored();
    let svg = icon_for(&idx, "My Service", "Grafana");
    assert!(svg.is_some(), "uppercase override slug should resolve");
    assert!(svg.unwrap().contains("<svg"));
}

#[test]
fn slug_pieces_and_aliases() {
    assert_eq!(slug_from_lowercase("my app (v2)!"), "myappv2");
    assert_eq!(slugify("Ünïcode Ñame"), "ncodeame");
    assert_eq!(canonical_slug("k8s"), "kubernetes");
    assert_eq!(canonical_slug("postgres"), "postgresql");
    assert_eq!(canonical_slug("grafana"), "grafana");
    let idx = vendored();
    assert!(icon_for(&idx, "k8s", "").is_some());
    assert!(icon_for(&idx, "grafana", "unknown-override").is_none());
}

#[test]
fn index_skips_other_files_and_decodes_lossily() {
    let files = vec![
        IconFile { name: "readme.txt".into(), data: b"<svg>".to_vec() },
        IconFile { name: "broken.svg".into(), data: vec![0x3c, 0xff, 0x3e] },
        IconFile { name: "dup.svg".into(), data: b"first".to_vec() },
        IconFile { name: "dup.svg".into(), data: b"second".to_vec() },
    ];
    let idx = IconIndex::from_files(&files);
    assert_eq!(idx.get("readme"), None);
    assert_eq!(idx.get("readme.txt"), None);
    assert_eq!(idx.get("broken"), Some("<\u{FFFD}>"));
    assert_eq!(idx.get("dup"), Some("second"));
}

#[test]
fn slugify_twice_is_slugify_once() {
    for name in ["Grafana Cloud", "nats.io", "C++ Tools", "Argo-CD (prod)", "k8s", "Ångström KELVIN"] {
        let once = slugify(name);
        assert_eq!(slugify(&once), once);
        assert!(once.chars().all(|c| c.is_ascii_lowercase() || c.is_ascii_digit()));
    }
}

#[test]
fn canonical_twice_is_canonical_once() {
    for slug in [
        "argocd", "k8s", "postgres", "kafka", "traefik", "nats", "vaultproject", "sonarqube",
        "victorialogs", "victorialogsvmui", "victoriametricsvmui", "grafana",
    ] {
        let once = canonical_slug(slug);
        assert_eq!(canonical_slug(once), once);
    }
}
