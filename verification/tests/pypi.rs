use oghcollector::collector::pypi::{
    nearest_version, package_url, parse_segment, parse_segments, OsvLookup,
};

fn names(list: &[&str]) -> Vec<String> {
    list.iter().map(|s| s.to_string()).collect()
}

#[test]
fn segment_is_a_number_or_the_sentinel() {
    assert_eq!(parse_segment("12"), 12);
    assert_eq!(parse_segment("0"), 0);
    assert_eq!(parse_segment("x"), -1);
    assert_eq!(parse_segment(""), -1);
    assert_eq!(parse_segment("-3"), -3);
    assert_eq!(parse_segment("+5"), 5);
    assert_eq!(parse_segment("32767"), 32767);
    assert_eq!(parse_segment("32768"), -1);
    assert_eq!(parse_segment("-32768"), -32768);
    assert_eq!(parse_segment("1rc1"), -1);
}

#[test]
fn segment_agrees_with_std() {
    for s in ["", "0", "007", "12", "-", "+", "-0", "+12", "99999", "1 ", "a1", "32767", "-32769"] {
        assert_eq!(parse_segment(s), s.parse::<i16>().unwrap_or(-1));
    }
}

#[test]
fn segments_are_read_between_dots() {
    assert_eq!(parse_segments("2.x.1"), vec![2, -1, 1]);
    assert_eq!(parse_segments("2.3"), vec![2, 3]);
    assert_eq!(parse_segments(""), vec![-1]);
}

#[test]
fn nearest_version_depends_on_the_listing_order() {
    assert_eq!(nearest_version("2.3", &names(&["2.2", "2.1"])), Some("2.1".to_string()));
    assert_eq!(nearest_version("2.3", &names(&["2.1", "2.2"])), Some("2.2".to_string()));
}

#[test]
fn nearest_version_is_none_where_nothing_is_below() {
    assert_eq!(nearest_version("2.3", &names(&["2.3", "2.4", "3.0"])), None);
    assert_eq!(nearest_version("2.3", &Vec::new()), None);
    assert_eq!(nearest_version("2.3", &names(&["2"])), None);
}

#[test]
fn nearest_version_decides_at_the_first_differing_segment() {
    assert_eq!(nearest_version("2.3", &names(&["1.9"])), Some("1.9".to_string()));
    assert_eq!(nearest_version("2.3", &names(&["3.1"])), None);
    assert_eq!(nearest_version("2.3", &names(&["2.1.9"])), Some("2.1.9".to_string()));
    assert_eq!(nearest_version("2.3.1", &names(&["2.3"])), None);
}

#[test]
fn nearest_version_passes_over_sentinels() {
    assert_eq!(nearest_version("2.x.5", &names(&["2.0.4"])), Some("2.0.4".to_string()));
    assert_eq!(nearest_version("2.3", &names(&["2.2rc1"])), None);
    assert_eq!(nearest_version("2.3", &names(&["1.2rc1"])), Some("1.2rc1".to_string()));
}

#[test]
fn pinned_requirement_asks_about_its_version() {
    let l = OsvLookup::for_requirement("requests==2.0").unwrap();
    assert_eq!(l.package, "requests");
    assert_eq!(l.version, "2.0");
    assert!(!l.below);
}

#[test]
fn bounded_requirement_asks_to_stay_below() {
    let l = OsvLookup::for_requirement("foo<2.3").unwrap();
    assert_eq!(l.package, "foo");
    assert_eq!(l.version, "2.3");
    assert!(l.below);
    let l = OsvLookup::for_requirement("foo <= 2.3").unwrap();
    assert_eq!(l.package, "foo");
    assert_eq!(l.version, "2.3");
    assert!(!l.below);
}

#[test]
fn other_requirements_ask_nothing() {
    assert!(OsvLookup::for_requirement("foo").is_none());
    assert!(OsvLookup::for_requirement("foo>=1.0").is_none());
    assert!(OsvLookup::for_requirement("").is_none());
}

#[test]
fn capture_decides_the_lookup() {
    let groups = Some(vec![
        Some("foo < 1.0".to_string()),
        Some("foo ".to_string()),
        Some(" 1.0".to_string()),
    ]);
    let l = OsvLookup::from_capture("foo < 1.0", &groups).unwrap();
    assert_eq!(l.package, "foo");
    assert_eq!(l.version, "1.0");
    assert!(l.below);
    assert!(OsvLookup::from_capture("foo < 1.0", &None).is_none());
    assert!(OsvLookup::from_capture("foo", &groups).is_none());
}

#[test]
fn registry_address_names_package_and_version() {
    assert_eq!(
        package_url("requests", Some("2.0")),
        "https://pypi.python.org/pypi/requests/2.0/json"
    );
    assert_eq!(package_url("requests", None), "https://pypi.python.org/pypi/requests/json");
}

#[test]
fn version_to_ask_is_the_pinned_one_or_the_nearest_below() {
    let pinned = OsvLookup::for_requirement("requests==2.0").unwrap();
    assert_eq!(pinned.version_to_ask(None), Some("2.0".to_string()));
    assert_eq!(pinned.version_to_ask(Some("1.9".to_string())), Some("2.0".to_string()));
    let bound = OsvLookup::for_requirement("foo<2.3").unwrap();
    assert_eq!(bound.version_to_ask(Some("2.2".to_string())), Some("2.2".to_string()));
    assert_eq!(bound.version_to_ask(None), None);
}
