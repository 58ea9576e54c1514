use oghcollector::collector::config::OGHCollectorConfig;
use oghcollector::server::config::{OGHServerConfig, Origin};

fn names(list: &[&str]) -> Vec<String> {
    list.iter().map(|s| s.to_string()).collect()
}

#[test]
fn collector_reads_a_repository_with_paths() {
    let c = OGHCollectorConfig::from_parts("tok", "OCA/web:/addons,/extra", "16.0", "/data/repos")
        .unwrap();
    assert_eq!(c.get_mode(), "repo");
    assert_eq!(c.get_source(), "OCA/web");
    assert_eq!(c.get_token(), "tok");
    assert_eq!(c.get_branch(), "16.0");
    assert_eq!(c.get_repos_path(), "/data/repos");
    assert_eq!(*c.get_version_odoo(), 160);
    assert_eq!(*c.get_read_paths(), names(&["/addons", "/extra"]));
}

#[test]
fn collector_reads_an_organization() {
    let c = OGHCollectorConfig::from_parts("tok", "OCA", "17", "/r").unwrap();
    assert_eq!(c.get_mode(), "org");
    assert_eq!(c.get_source(), "OCA");
    assert_eq!(*c.get_version_odoo(), 170);
    assert_eq!(*c.get_read_paths(), names(&[""]));
}

#[test]
fn collector_reads_no_paths_behind_two_colons() {
    let c = OGHCollectorConfig::from_parts("tok", "a:b:c", "8.0", "/r").unwrap();
    assert_eq!(c.get_source(), "a");
    assert_eq!(*c.get_read_paths(), names(&[""]));
    assert_eq!(*c.get_version_odoo(), 80);
}

#[test]
fn collector_takes_the_first_two_parts_of_the_branch() {
    let c = OGHCollectorConfig::from_parts("tok", "OCA", "16.0.1", "/r").unwrap();
    assert_eq!(*c.get_version_odoo(), 160);
}

#[test]
fn collector_refuses_a_branch_that_names_no_bucket() {
    assert!(OGHCollectorConfig::from_parts("tok", "OCA", "master", "/r").is_none());
    assert!(OGHCollectorConfig::from_parts("tok", "OCA", "16.0-mig", "/r").is_none());
    assert!(OGHCollectorConfig::from_parts("tok", "OCA", "", "/r").is_none());
}

#[test]
fn server_settings_have_defaults() {
    let c = OGHServerConfig::from_settings(None, None, None, None, &Vec::new(), Vec::new()).unwrap();
    assert_eq!(c.get_bind_address(), "0.0.0.0");
    assert_eq!(*c.get_port(), 8080);
    assert_eq!(*c.get_workers(), 2);
    assert!(!c.get_template_autoreload());
    assert!(c.get_allowed_origins().is_empty());
    assert!(c.get_cookie_key_bytes().is_empty());
}

#[test]
fn server_settings_are_taken_as_given() {
    let c = OGHServerConfig::from_settings(
        Some("127.0.0.1".to_string()),
        Some(9000),
        Some(8),
        Some(true),
        &names(&["https://example.com", "http://localhost:8080/x"]),
        vec![1, 2, 3],
    )
    .unwrap();
    assert_eq!(c.get_bind_address(), "127.0.0.1");
    assert_eq!(*c.get_port(), 9000);
    assert_eq!(*c.get_workers(), 8);
    assert!(c.get_template_autoreload());
    assert_eq!(*c.get_cookie_key_bytes(), vec![1, 2, 3]);
    let origins = c.get_allowed_origins();
    assert_eq!(origins.len(), 2);
    assert_eq!(origins[0].scheme, "https");
    assert_eq!(origins[0].domain, Some("example.com".to_string()));
    assert_eq!(origins[0].port, None);
    assert_eq!(origins[1].scheme, "http");
    assert_eq!(origins[1].domain, Some("localhost".to_string()));
    assert_eq!(origins[1].port, Some(8080));
}

#[test]
fn server_settings_refuse_an_origin_that_is_no_address() {
    let r = OGHServerConfig::from_settings(None, None, None, None, &names(&["not an address"]), Vec::new());
    assert!(r.is_none());
}

#[test]
fn any_origin_is_answered_where_none_is_named() {
    let c = OGHServerConfig::from_settings(None, None, None, None, &Vec::new(), Vec::new()).unwrap();
    assert!(c.is_allowed_origin("https://anywhere.example"));
    assert_eq!(c.check_origin("not an address"), Some(true));
}

#[test]
fn named_origins_are_answered_by_scheme_domain_and_port() {
    let c = OGHServerConfig::from_settings(
        None,
        None,
        None,
        None,
        &names(&["https://example.com", "http://localhost:8080"]),
        Vec::new(),
    )
    .unwrap();
    assert!(c.is_allowed_origin("https://example.com/some/path"));
    assert!(c.is_allowed_origin("https://example.com:443"));
    assert!(c.is_allowed_origin("http://localhost:8080"));
    assert!(!c.is_allowed_origin("http://example.com"));
    assert!(!c.is_allowed_origin("https://example.com:444"));
    assert!(!c.is_allowed_origin("https://www.example.com"));
    assert!(!c.is_allowed_origin("http://localhost"));
    assert_eq!(c.check_origin("https://example.com"), Some(true));
    assert_eq!(c.check_origin("https://other.example"), Some(false));
    assert_eq!(c.check_origin("not an address"), None);
}

#[test]
fn origins_match_on_all_three_parts() {
    let a = Origin { scheme: "https".to_string(), domain: Some("example.com".to_string()), port: None };
    let b = a.duplicate();
    assert!(a.matches(&b));
    let c = Origin { scheme: "https".to_string(), domain: None, port: None };
    assert!(!a.matches(&c));
    let d = Origin { scheme: "https".to_string(), domain: Some("example.com".to_string()), port: Some(8443) };
    assert!(!a.matches(&d));
    let e = Origin { scheme: "http".to_string(), domain: Some("example.com".to_string()), port: None };
    assert!(!a.matches(&e));
    let c2 = OGHServerConfig::from_settings(None, None, None, None, &vec!["https://example.com".to_string()], Vec::new()).unwrap();
    assert!(c2.allows(&a));
    assert!(!c2.allows(&d));
}
