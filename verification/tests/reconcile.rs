use oghcollector::collector::pypi::nearest_version;
use oghcollector::collector::reconciler::reconcile;
use oghcollector::models::dependency_module;
use oghcollector::models::dependency_type;
use oghcollector::models::module::ManifestInfo;
use oghcollector::models::store::Store;
use oghcollector::models::system_event::EventKind;

fn names(list: &[&str]) -> Vec<String> {
    list.iter().map(|s| s.to_string()).collect()
}

fn sale_extra(depends: &[&str]) -> ManifestInfo {
    ManifestInfo {
        technical_name: "sale_extra".to_string(),
        version_odoo: 160,
        name: "Sale Extra".to_string(),
        version_module: "1.0.0.0".to_string(),
        description: "More for sales".to_string(),
        author: "Acme".to_string(),
        website: "https://acme.example".to_string(),
        license: "LGPL-3".to_string(),
        category: "Uncategorized".to_string(),
        auto_install: false,
        application: false,
        installable: true,
        maintainer: "Acme".to_string(),
        git_org: "acme".to_string(),
        git_repo: "addons".to_string(),
        depends: names(depends),
        external_depends_python: Vec::new(),
        external_depends_bin: Vec::new(),
        folder_size: 1024,
        last_commit_hash: "abc123".to_string(),
        last_commit_author: "Ann".to_string(),
        last_commit_date: "Mon, 1 Jan 2024 10:00:00 +0000".to_string(),
        last_commit_name: "[ADD] sale_extra".to_string(),
        last_commit_partof: String::new(),
        committers: vec![("Ann".to_string(), 3)],
    }
}

fn count_tag(store: &Store, tag: &str) -> usize {
    store.system_events.iter().filter(|e| e.event_type_id.1 == tag).count()
}

#[test]
fn first_reconciliation_enters_module_and_edges() {
    let mut store = Store::new();
    let out = reconcile(&mut store, &sale_extra(&["sale", "base"]), "2024-01-01 10:00:00").unwrap();
    assert_eq!(store.modules.len(), 1);
    assert_eq!(count_tag(&store, "module"), 1);
    let peers = dependency_module::get_names(&store, &out.module.id, &dependency_type::MODULE);
    assert_eq!(peers, names(&["sale", "base"]));
    assert_eq!(store.dependency_modules.len(), 2);
    assert!(dependency_module::get_names(&store, &out.module.id, &dependency_type::PYTHON).is_empty());
    assert!(dependency_module::get_names(&store, &out.module.id, &dependency_type::BIN).is_empty());
}

#[test]
fn rescan_without_base_drops_the_edge() {
    let mut store = Store::new();
    let first = reconcile(&mut store, &sale_extra(&["sale", "base"]), "2024-01-01 10:00:00").unwrap();
    let events_before = store.system_events.len();
    let second = reconcile(&mut store, &sale_extra(&["sale"]), "2024-01-02 10:00:00").unwrap();
    assert_eq!(store.modules.len(), 1);
    assert_eq!(second.module.id, first.module.id);
    assert_eq!(second.module.update_date, first.module.update_date);
    let peers = dependency_module::get_names(&store, &second.module.id, &dependency_type::MODULE);
    assert_eq!(peers, names(&["sale"]));
    assert_eq!(store.system_events.len(), events_before + 1);
    let last = store.system_events.last().unwrap();
    assert_eq!(last.kind, EventKind::DeletedDependency);
    assert_eq!(last.subject, "base");
    assert_eq!(last.detail, "module");
    assert!(last.message.contains("base"));
    assert!(last.message.contains("module dependency"));
}

#[test]
fn nearest_version_is_last_listed_below_the_bound() {
    let releases = names(&["2.1", "2.2", "2.4"]);
    assert_eq!(nearest_version("2.3", &releases), Some("2.2".to_string()));
}
