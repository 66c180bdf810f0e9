use cpr::config::{resolve, BaseURL, Config, ConfigErrorKind, ServiceEntry};

fn registry(entries: &[(&str, &str)], default: &str) -> Config {
    Config {
        services: entries
            .iter()
            .map(|(p, u)| ServiceEntry {
                prefix: p.to_string(),
                base: BaseURL { url: u.to_string() },
            })
            .collect(),
        default_service: default.to_string(),
    }
}

#[test]
fn resolve_known_prefix_replaces_marker() {
    let cfg = registry(
        &[
            ("gh", "https://github.com/{{ repo }}.git"),
            ("gl", "https://gitlab.com/{{ repo }}.git"),
        ],
        "gh",
    );
    let url = resolve("gl:group/proj", &cfg).unwrap();
    assert_eq!(url, "https://gitlab.com/group/proj.git");
}

#[test]
fn resolve_end_to_end_github_reference() {
    let cfg = registry(&[("gh", "https://github.com/{{ repo }}.git")], "gh");
    let url = resolve("gh:org/template", &cfg).unwrap();
    assert_eq!(url, "https://github.com/org/template.git");
}

#[test]
fn resolve_bare_path_uses_default_prefix() {
    let cfg = registry(
        &[
            ("gh", "https://github.com/{{ repo }}.git"),
            ("gl", "https://gitlab.com/{{ repo }}.git"),
        ],
        "gl",
    );
    let url = resolve("org/template", &cfg).unwrap();
    assert_eq!(url, "https://gitlab.com/org/template.git");
}

#[test]
fn resolve_unknown_prefix_falls_back_to_default() {
    let cfg = registry(&[("gh", "https://github.com/{{ repo }}.git")], "gh");
    let url = resolve("bb:org/template", &cfg).unwrap();
    assert_eq!(url, "https://github.com/org/template.git");
}

#[test]
fn resolve_fails_only_when_both_prefixes_missing() {
    let cfg = registry(&[("gh", "https://github.com/{{ repo }}.git")], "missing");
    assert!(matches!(
        resolve("bb:org/template", &cfg),
        Err(ConfigErrorKind::ServiceNotFound)
    ));
    let empty = registry(&[], "gh");
    assert!(matches!(
        resolve("gh:org/template", &empty),
        Err(ConfigErrorKind::ServiceNotFound)
    ));
    // the requested prefix exists, so the missing default does not matter
    let cfg2 = registry(&[("gh", "https://github.com/{{ repo }}.git")], "missing");
    assert!(resolve("gh:org/template", &cfg2).is_ok());
}

#[test]
fn clone_url_replaces_marker() {
    let cfg = registry(&[("gh", "https://github.com/{{ repo }}.git")], "gh");
    assert_eq!(
        cfg.clone_url("gh", "cpr-rs/cpp"),
        "https://github.com/cpr-rs/cpp.git"
    );
}

#[test]
fn clone_url_unknown_prefix_uses_default() {
    let cfg = registry(
        &[
            ("gh", "https://github.com/{{ repo }}.git"),
            ("gl", "https://gitlab.com/{{ repo }}.git"),
        ],
        "gl",
    );
    assert_eq!(
        cfg.clone_url("nope", "a/b"),
        "https://gitlab.com/a/b.git"
    );
}

#[test]
fn add_service_inserts_and_overwrites() {
    let mut cfg = registry(&[("gh", "https://github.com/{{ repo }}.git")], "gh");
    cfg.add_service("gl".to_string(), "https://gitlab.com/{{ repo }}.git".to_string())
        .unwrap();
    assert_eq!(
        resolve("gl:a/b", &cfg).unwrap(),
        "https://gitlab.com/a/b.git"
    );
    cfg.add_service("gl".to_string(), "https://example.com/{{ repo }}".to_string())
        .unwrap();
    assert_eq!(resolve("gl:a/b", &cfg).unwrap(), "https://example.com/a/b");
    assert_eq!(cfg.services.len(), 2);
}

#[test]
fn remove_service_errors_on_missing_prefix() {
    let mut cfg = registry(&[("gh", "https://github.com/{{ repo }}.git")], "gh");
    assert!(matches!(
        cfg.remove_service("gl"),
        Err(ConfigErrorKind::ServiceNotFound)
    ));
    assert!(cfg.remove_service("gh").is_ok());
    assert!(cfg.services.is_empty());
}

#[test]
fn set_default_service_requires_existing_prefix() {
    let mut cfg = registry(
        &[
            ("gh", "https://github.com/{{ repo }}.git"),
            ("gl", "https://gitlab.com/{{ repo }}.git"),
        ],
        "gh",
    );
    assert!(matches!(
        cfg.set_default_service("bb"),
        Err(ConfigErrorKind::ServiceNotFound)
    ));
    assert_eq!(cfg.default_service, "gh");
    assert!(cfg.set_default_service("gl").is_ok());
    assert_eq!(cfg.default_service, "gl");
}

#[test]
fn starter_registry_points_at_github() {
    let cfg = Config::starter();
    assert_eq!(cfg.default_service, "gh");
    assert_eq!(cfg.services.len(), 1);
    assert_eq!(cfg.services[0].prefix, "gh");
    assert_eq!(cfg.services[0].base.url, "https://github.com/{{ repo }}.git");
    assert_eq!(
        resolve("me/proj", &cfg).unwrap(),
        "https://github.com/me/proj.git"
    );
}

#[test]
fn every_marker_occurrence_is_replaced() {
    let cfg = registry(
        &[("mirror", "https://{{ repo }}.example.com/{{ repo }}.git")],
        "mirror",
    );
    assert_eq!(
        resolve("mirror:a/b", &cfg).unwrap(),
        "https://a/b.example.com/a/b.git"
    );
}

#[test]
fn template_without_marker_is_returned_unchanged() {
    let cfg = registry(&[("fixed", "https://example.com/repo.git")], "fixed");
    assert_eq!(
        resolve("fixed:whatever", &cfg).unwrap(),
        "https://example.com/repo.git"
    );
}

#[test]
fn path_may_contain_colons() {
    // only the first `:` splits the reference
    let cfg = registry(&[("gh", "{{ repo }}")], "gh");
    assert_eq!(resolve("gh:a:b/c", &cfg).unwrap(), "a:b/c");
}
