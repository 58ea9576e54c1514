use std::collections::HashMap;

use oghcollector::collector::scan::{
    mark, note, purge_stale, record_advisories, repository_id, take_in, Advisory,
};
use oghcollector::models::dependency_osv;
use oghcollector::models::module;
use oghcollector::models::module::ManifestInfo;
use oghcollector::models::store::{Store, StoreError};
use oghcollector::models::system_event::EventKind;
use oghcollector::server::osv::{entries_of, osv_entries};

const NOW: &str = "2024-01-01 10:00:00";

fn texts(list: &[&str]) -> Vec<String> {
    list.iter().map(|s| s.to_string()).collect()
}

fn scraped(technical_name: &str, declared: u8) -> ManifestInfo {
    ManifestInfo {
        technical_name: technical_name.to_string(),
        version_odoo: declared,
        name: "Sale Extra".to_string(),
        version_module: "1.0.0".to_string(),
        description: String::new(),
        author: "Acme".to_string(),
        website: String::new(),
        license: "LGPL-3".to_string(),
        category: "Uncategorized".to_string(),
        auto_install: false,
        application: false,
        installable: true,
        maintainer: "Acme".to_string(),
        git_org: "acme".to_string(),
        git_repo: "addons".to_string(),
        depends: texts(&["base"]),
        external_depends_python: texts(&["requests<2.0"]),
        external_depends_bin: Vec::new(),
        folder_size: 10,
        last_commit_hash: "abc".to_string(),
        last_commit_author: "Ann".to_string(),
        last_commit_date: "today".to_string(),
        last_commit_name: "subject".to_string(),
        last_commit_partof: String::new(),
        committers: Vec::new(),
    }
}

fn advisory(id: &str, details: &str, fixed_in: &[&str]) -> Advisory {
    Advisory { id: id.to_string(), details: details.to_string(), fixed_in: texts(fixed_in) }
}

#[test]
fn module_is_taken_in_under_the_bucket_of_the_scan() {
    let mut store = Store::new();
    let out = take_in(&mut store, scraped("sale_extra", 160), &160, NOW).unwrap();
    assert_eq!(out.module.version_odoo, 160);
    assert_eq!(store.modules.len(), 1);
    assert!(store.system_events.iter().all(|e| e.kind != EventKind::ProblemModuleVersion));
}

#[test]
fn misfiled_module_is_reported() {
    let mut store = Store::new();
    let out = take_in(&mut store, scraped("sale_extra", 150), &160, NOW).unwrap();
    assert_eq!(out.module.version_odoo, 160);
    let e = store.system_events.last().unwrap();
    assert_eq!(e.kind, EventKind::ProblemModuleVersion);
    assert_eq!(e.module_id, out.module.id);
    assert_eq!(e.subject, "sale_extra");
    assert_eq!(e.detail, "15.0");
    assert_eq!(
        e.message,
        "<span class='problem'>PROBLEM DETECTED: '<span class='module_tech_name'>sale_extra</span>' \
         (<span class='module_name'>Sale Extra</span>) from <span class='module_repo'>addons</span> \
         has an incorrect Odoo version: <span class='value_wrong'>15.0</span> should be \
         <span class='value_good'>16.0</span></span>"
    );
}

#[test]
fn misfiled_module_that_cannot_be_installed_is_not_reported() {
    let mut store = Store::new();
    let mut d = scraped("sale_extra", 150);
    d.installable = false;
    take_in(&mut store, d, &160, NOW).unwrap();
    assert!(store.system_events.iter().all(|e| e.kind != EventKind::ProblemModuleVersion));
}

#[test]
fn taking_in_fails_where_identities_run_out() {
    let mut store = Store::new();
    store.last_id = i64::MAX - 2;
    let r = take_in(&mut store, scraped("sale_extra", 150), &160, NOW);
    assert!(matches!(r, Err(StoreError::IdsExhausted)));
    assert!(store.system_events.is_empty());
    assert!(store.modules.is_empty());
}

#[test]
fn scan_notes_what_it_met_by_repository() {
    let mut kept: HashMap<i64, Vec<i64>> = HashMap::new();
    note(&mut kept, 2, 10);
    note(&mut kept, 5, 11);
    note(&mut kept, 2, 12);
    assert_eq!(kept, HashMap::from([(2, vec![10, 12]), (5, vec![11])]));
}

#[test]
fn scan_purges_what_it_did_not_meet() {
    let mut store = Store::new();
    let a = take_in(&mut store, scraped("a", 160), &160, NOW).unwrap();
    let b = take_in(&mut store, scraped("b", 160), &160, NOW).unwrap();
    let old = take_in(&mut store, scraped("c", 150), &150, NOW).unwrap();
    let mut other = scraped("d", 160);
    other.git_repo = "other".to_string();
    let d = take_in(&mut store, other, &160, NOW).unwrap();
    let mut kept: HashMap<i64, Vec<i64>> = HashMap::new();
    note(&mut kept, a.module.gh_repository_id.0, a.module.id);
    let gone = purge_stale(&mut store, &kept, &160);
    assert_eq!(gone, 1);
    assert!(module::get_by_id(&store, &a.module.id).is_some());
    assert!(module::get_by_id(&store, &b.module.id).is_none());
    assert!(module::get_by_id(&store, &old.module.id).is_some());
    assert!(module::get_by_id(&store, &d.module.id).is_some());
    assert!(store.dependency_modules.iter().all(|e| e.module_id.0 != b.module.id));
    assert_eq!(purge_stale(&mut store, &HashMap::new(), &160), 0);
    assert_eq!(store.modules.len(), 3);
}

#[test]
fn advisories_are_recorded_once_for_each_id() {
    let mut store = Store::new();
    let out = take_in(&mut store, scraped("sale_extra", 160), &160, NOW).unwrap();
    let edge = out.new_python_edges[0].id;
    let found = vec![
        advisory("PYSEC-1", "first", &["2.0", "2.1"]),
        advisory("PYSEC-2", "second", &[]),
        advisory("PYSEC-1", "again", &["9.9"]),
    ];
    assert_eq!(record_advisories(&mut store, &edge, &found), Ok(()));
    assert_eq!(store.dependency_osvs.len(), 2);
    let first = dependency_osv::get_by_dep_mod_id_osv_id(&store, &edge, &"PYSEC-1".to_string()).unwrap();
    assert_eq!(first.details, "first");
    assert_eq!(first.fixed_in, "2.0, 2.1");
    assert_eq!(first.dependency_module_id.0, edge);
    let second = dependency_osv::get_by_dep_mod_id_osv_id(&store, &edge, &"PYSEC-2".to_string()).unwrap();
    assert_eq!(second.fixed_in, "");
    assert_eq!(record_advisories(&mut store, &edge, &found), Ok(()));
    assert_eq!(store.dependency_osvs.len(), 2);
}

#[test]
fn advisories_are_not_recorded_where_identities_run_out() {
    let mut store = Store::new();
    let out = take_in(&mut store, scraped("sale_extra", 160), &160, NOW).unwrap();
    let edge = out.new_python_edges[0].id;
    store.last_id = i64::MAX - 1;
    let found = vec![advisory("PYSEC-1", "first", &[]), advisory("PYSEC-2", "second", &[])];
    assert_eq!(record_advisories(&mut store, &edge, &found), Err(StoreError::IdsExhausted));
    assert!(store.dependency_osvs.is_empty());
    assert_eq!(record_advisories(&mut store, &edge, &found[..1].iter().map(|a| advisory(&a.id, &a.details, &[])).collect()), Ok(()));
    assert_eq!(store.dependency_osvs.len(), 1);
    assert_eq!(store.last_id, i64::MAX);
}

#[test]
fn advisories_are_shown_with_bucket_module_and_package() {
    let mut store = Store::new();
    let out = take_in(&mut store, scraped("sale_extra", 160), &160, NOW).unwrap();
    let edge = out.new_python_edges[0].id;
    record_advisories(&mut store, &edge, &vec![advisory("PYSEC-1", "first", &["2.0"])]).unwrap();
    let entries = osv_entries(&store);
    assert_eq!(entries.len(), 1);
    assert_eq!(entries[0].version_odoo, "16.0");
    assert_eq!(entries[0].module, "sale_extra (Sale Extra)");
    assert_eq!(entries[0].package, "requests<2.0");
    assert_eq!(entries[0].advisory.osv_id, "PYSEC-1");
    assert_eq!(entries[0].advisory.details, "first");
    assert_eq!(entries[0].advisory.fixed_in, "2.0");
    let infos = dependency_osv::get_osv_info(&store);
    assert_eq!(entries_of(&infos).len(), 1);
}

#[test]
fn purge_takes_the_advisories_of_a_stale_module() {
    let mut store = Store::new();
    let a = take_in(&mut store, scraped("a", 160), &160, NOW).unwrap();
    let b = take_in(&mut store, scraped("b", 160), &160, NOW).unwrap();
    record_advisories(&mut store, &a.new_python_edges[0].id, &vec![advisory("X", "x", &[])]).unwrap();
    record_advisories(&mut store, &b.new_python_edges[0].id, &vec![advisory("Y", "y", &[])]).unwrap();
    let mut kept: HashMap<i64, Vec<i64>> = HashMap::new();
    note(&mut kept, a.module.gh_repository_id.0, a.module.id);
    purge_stale(&mut store, &kept, &160);
    assert_eq!(store.dependency_osvs.len(), 1);
    assert_eq!(store.dependency_osvs[0].osv_id, "X");
}

#[test]
fn scan_purges_a_repository_in_which_it_met_nothing() {
    let mut store = Store::new();
    let a = take_in(&mut store, scraped("a", 160), &160, NOW).unwrap();
    take_in(&mut store, scraped("b", 160), &160, NOW).unwrap();
    let old = take_in(&mut store, scraped("c", 150), &150, NOW).unwrap();
    let mut other = scraped("d", 160);
    other.git_repo = "other".to_string();
    let d = take_in(&mut store, other, &160, NOW).unwrap();
    let mut kept: HashMap<i64, Vec<i64>> = HashMap::new();
    let repo = repository_id(&store, "acme", "addons").unwrap();
    assert_eq!(repo, a.module.gh_repository_id.0);
    assert_eq!(repository_id(&store, "acme", "nothing"), None);
    assert_eq!(repository_id(&store, "other", "addons"), None);
    mark(&mut kept, repo);
    assert_eq!(kept, HashMap::from([(repo, Vec::new())]));
    mark(&mut kept, repo);
    assert_eq!(kept.len(), 1);
    let gone = purge_stale(&mut store, &kept, &160);
    assert_eq!(gone, 2);
    assert!(module::get_by_id(&store, &old.module.id).is_some());
    assert!(module::get_by_id(&store, &d.module.id).is_some());
    assert_eq!(store.modules.len(), 2);
}

#[test]
fn marking_keeps_what_was_noted() {
    let mut kept: HashMap<i64, Vec<i64>> = HashMap::new();
    note(&mut kept, 2, 10);
    mark(&mut kept, 2);
    mark(&mut kept, 7);
    note(&mut kept, 7, 11);
    assert_eq!(kept, HashMap::from([(2, vec![10]), (7, vec![11])]));
}
