use oghcollector::collector::reconciler::reconcile;
use oghcollector::models::dependency;
use oghcollector::models::gh_repository;
use oghcollector::models::module;
use oghcollector::models::module::ManifestInfo;
use oghcollector::models::module_author;
use oghcollector::models::ranking::{rank_at, top_five};
use oghcollector::models::search;
use oghcollector::models::store::Store;
use oghcollector::server::common;
use oghcollector::server::dashboard;
use oghcollector::server::doodba_tools::{get_doodba_addons, get_doodba_addons_full, merged, shorten};
use oghcollector::server::module::{
    full_info, get_module_generic_info, modules_asked, process_modules_db, record,
    RouteModuleRequest,
};
use oghcollector::server::repository::{generic_info_of, get_repository_generic_info};
use oghcollector::server::search::{get_modules, get_modules_by_odoo_version, RouteSearchRequest};

const NOW: &str = "2024-01-01 10:00:00";

fn texts(list: &[&str]) -> Vec<String> {
    list.iter().map(|s| s.to_string()).collect()
}

fn scraped(technical_name: &str, bucket: u8, org: &str, repo: &str, author: &str, depends: &[&str]) -> ManifestInfo {
    ManifestInfo {
        technical_name: technical_name.to_string(),
        version_odoo: bucket,
        name: format!("The {}", technical_name),
        version_module: "1.0.0".to_string(),
        description: String::new(),
        author: author.to_string(),
        website: String::new(),
        license: "LGPL-3".to_string(),
        category: "Uncategorized".to_string(),
        auto_install: false,
        application: false,
        installable: true,
        maintainer: String::new(),
        git_org: org.to_string(),
        git_repo: repo.to_string(),
        depends: texts(depends),
        external_depends_python: Vec::new(),
        external_depends_bin: Vec::new(),
        folder_size: 1,
        last_commit_hash: String::new(),
        last_commit_author: String::new(),
        last_commit_date: String::new(),
        last_commit_name: String::new(),
        last_commit_partof: String::new(),
        committers: Vec::new(),
    }
}

fn catalog() -> Store {
    let mut store = Store::new();
    let mut sale = scraped("sale", 160, "odoo", "odoo", "Odoo SA", &["base"]);
    sale.external_depends_python = texts(&["lxml"]);
    sale.committers = vec![("Ann".to_string(), 7), ("Weblate".to_string(), 50)];
    reconcile(&mut store, &sale, NOW).unwrap();
    let mut extra = scraped("sale_extra", 160, "acme", "addons", "Acme, Bob", &["sale"]);
    extra.external_depends_python = texts(&["requests", "lxml"]);
    extra.external_depends_bin = texts(&["wkhtmltopdf"]);
    extra.committers = vec![("Ann".to_string(), 2), ("Ben".to_string(), 4)];
    reconcile(&mut store, &extra, NOW).unwrap();
    reconcile(&mut store, &scraped("sale_more", 160, "acme", "addons", "Acme", &["sale_extra", "ghost"]), NOW)
        .unwrap();
    reconcile(&mut store, &scraped("sale_extra", 170, "acme", "addons", "Acme", &[]), NOW).unwrap();
    store
}

fn row_of(store: &Store, name: &str, bucket: u8) -> usize {
    store.modules.iter().position(|m| m.technical_name == name && m.version_odoo == bucket).unwrap()
}

#[test]
fn buckets_are_listed_newest_first() {
    let store = catalog();
    assert_eq!(module::get_odoo_versions(&store), vec![170, 160]);
    let shown = common::get_odoo_versions(&store);
    assert_eq!(shown.len(), 2);
    assert_eq!((shown[0].key, shown[0].value.as_str()), (170, "17.0"));
    assert_eq!((shown[1].key, shown[1].value.as_str()), (160, "16.0"));
    assert!(module::get_odoo_versions(&Store::new()).is_empty());
}

#[test]
fn modules_are_counted_by_bucket() {
    let store = catalog();
    let counts = module::count(&store);
    assert_eq!(counts.len(), 2);
    assert_eq!((counts[0].version_odoo, counts[0].count), (160, 3));
    assert_eq!((counts[1].version_odoo, counts[1].count), (170, 1));
    let shown = dashboard::modules_count(&store);
    assert_eq!((shown[0].version_odoo.as_str(), shown[0].count), ("16.0", 3));
    assert_eq!((shown[1].version_odoo.as_str(), shown[1].count), ("17.0", 1));
}

#[test]
fn modules_are_counted_by_organization() {
    let store = catalog();
    let rows = common::get_odoo_module_count(&store);
    let mut seen: Vec<(String, String, u32)> =
        rows.iter().map(|r| (r.org.clone(), r.version.clone(), r.count)).collect();
    assert_eq!(rows[0].count, 2);
    seen.sort();
    assert_eq!(
        seen,
        vec![
            ("acme".to_string(), "16.0".to_string(), 2),
            ("acme".to_string(), "17.0".to_string(), 1),
            ("odoo".to_string(), "16.0".to_string(), 1),
        ]
    );
}

#[test]
fn rank_counts_the_greater_scores() {
    let scores = vec![5, 9, 5, 1, 9, 0, 3, 2];
    assert_eq!(rank_at(&scores, 1), 1);
    assert_eq!(rank_at(&scores, 4), 1);
    assert_eq!(rank_at(&scores, 0), 3);
    assert_eq!(rank_at(&scores, 6), 5);
    assert_eq!(rank_at(&scores, 7), 6);
    assert_eq!(rank_at(&scores, 3), 6);
}

#[test]
fn first_five_leave_out_empty_scores() {
    let tables = vec![vec![0, 4, 4], vec![1]];
    let mut places = top_five(&tables);
    places.sort();
    assert_eq!(places, vec![(0, 1, 1), (0, 2, 1), (1, 0, 1)]);
}

#[test]
fn contributors_are_ranked_without_the_house() {
    let store = catalog();
    let rows = common::get_odoo_contributor_rank(&store);
    let mut seen: Vec<(String, String, u32, u16)> = rows
        .iter()
        .map(|r| (r.version.clone(), r.contributor.clone(), r.count, r.rank))
        .collect();
    seen.sort();
    assert_eq!(
        seen,
        vec![
            ("16.0".to_string(), "Acme".to_string(), 2, 1),
            ("16.0".to_string(), "Bob".to_string(), 1, 2),
            ("17.0".to_string(), "Acme".to_string(), 1, 1),
        ]
    );
}

#[test]
fn committers_are_ranked_without_machines() {
    let store = catalog();
    let rows = common::get_odoo_committer_rank(&store);
    let mut seen: Vec<(String, String, u32, u16)> = rows
        .iter()
        .map(|r| (r.version.clone(), r.committer.clone(), r.count, r.rank))
        .collect();
    seen.sort();
    assert_eq!(
        seen,
        vec![
            ("16.0".to_string(), "Ann".to_string(), 9, 1),
            ("16.0".to_string(), "Ben".to_string(), 4, 2),
        ]
    );
}

#[test]
fn authors_with_most_modules_come_first() {
    let store = catalog();
    let tops = module_author::get_top_names(&store, &2);
    assert_eq!(tops.len(), 2);
    let acme = store.authors.iter().find(|a| a.name == "Acme").unwrap();
    assert_eq!(tops[0].author_id, acme.id.to_string());
    assert_eq!(tops[0].count, "3");
    assert_eq!(tops[1].count, "1");
    assert!(module_author::get_top_names(&store, &0).is_empty());
}

#[test]
fn search_takes_capitals_and_small_letters_as_the_same() {
    let store = catalog();
    let found = get_modules(&store, "SALE_E");
    assert_eq!(found.len(), 1);
    assert_eq!(found[0].technical_name, "sale_extra");
    assert_eq!(found[0].versions, vec![("acme/addons".to_string(), texts(&["16.0", "17.0"]))]);
    assert!(get_modules(&store, "purchase").is_empty());
    assert_eq!(get_modules(&store, "").len(), 3);
}

#[test]
fn search_takes_no_wildcards() {
    let store = catalog();
    assert!(get_modules(&store, "sale%").is_empty());
    assert_eq!(get_modules(&store, "e_e").len(), 1);
    assert!(get_modules(&store, "s_le").is_empty());
}

#[test]
fn search_narrows_to_a_bucket() {
    let store = catalog();
    let found = get_modules_by_odoo_version(&store, "sale", &170);
    assert_eq!(found.len(), 1);
    assert_eq!(found[0].versions, vec![("acme/addons".to_string(), texts(&["17.0"]))]);
    let infos = search::get_generic_info_by_odoo_version(&store, "sale", &160);
    assert_eq!(infos.len(), 3);
    assert!(infos.iter().all(|i| i.versions == "160"));
    let all = search::get_generic_info(&store, "sale_extra");
    assert_eq!(all.len(), 1);
    assert_eq!(all[0].versions, "160,170");
    assert_eq!(all[0].src, "acme/addons");
}

#[test]
fn search_reads_its_request() {
    let store = catalog();
    let request = RouteSearchRequest { odoo_version: Some("17.0".to_string()), installable: Some(true) };
    let found = oghcollector::server::search::search(&store, "sale", &request).unwrap();
    assert_eq!(found.len(), 1);
    let request = RouteSearchRequest { odoo_version: Some("seventeen".to_string()), installable: None };
    assert!(oghcollector::server::search::search(&store, "sale", &request).is_none());
    let request = RouteSearchRequest { odoo_version: None, installable: Some(false) };
    assert!(oghcollector::server::search::search(&store, "sale", &request).unwrap().is_empty());
}

#[test]
fn module_is_told_of_with_buckets_and_addresses() {
    let store = catalog();
    let info = get_module_generic_info(&store, "sale_extra").unwrap();
    assert_eq!(info.technical_name, "sale_extra");
    assert_eq!(info.name, "The sale_extra");
    assert_eq!(info.odoo_versions, texts(&["16.0", "17.0"]));
    assert_eq!(info.repos, texts(&["https://github.com/acme/addons.git"]));
    assert!(get_module_generic_info(&store, "nothing").is_none());
}

#[test]
fn direct_dependencies_resolve_within_the_bucket() {
    let store = catalog();
    let more = &store.modules[row_of(&store, "sale_more", 160)];
    let infos = dependency::get_module_dependency_info(&store, &more.id);
    let seen: Vec<(String, String, String)> =
        infos.iter().map(|i| (i.org.clone(), i.repo.clone(), i.technical_name.clone())).collect();
    assert_eq!(
        seen,
        vec![
            ("acme".to_string(), "addons".to_string(), "sale_extra".to_string()),
            (String::new(), String::new(), "ghost".to_string()),
        ]
    );
    assert!(dependency::get_module_dependency_info(&store, &9999).is_empty());
    assert_eq!(
        dependency::get_module_external_dependency_names(&store, &store.modules[row_of(&store, "sale_extra", 160)].id, "python"),
        texts(&["requests", "lxml"])
    );
}

#[test]
fn closure_reaches_through_peer_modules() {
    let store = catalog();
    let info = full_info(&store, row_of(&store, "sale_more", 160));
    assert_eq!(info.technical_name, "sale_more");
    assert_eq!(info.organization, "acme");
    assert_eq!(info.repository, "addons");
    assert_eq!(info.git, "https://github.com/acme/addons.git");
    assert_eq!(info.authors, texts(&["Acme"]));
    let mut groups = info.dependencies.odoo.clone();
    groups.sort();
    assert_eq!(
        groups,
        vec![
            ("/".to_string(), texts(&["base", "ghost"])),
            ("acme/addons".to_string(), texts(&["sale_extra"])),
            ("odoo/odoo".to_string(), texts(&["sale"])),
        ]
    );
    assert_eq!(info.dependencies.pip, texts(&["requests", "lxml"]));
    assert_eq!(info.dependencies.bin, texts(&["wkhtmltopdf"]));
}

#[test]
fn request_narrows_to_organization_and_repository() {
    let store = catalog();
    let any = RouteModuleRequest { org: None, repo: None };
    assert_eq!(modules_asked(&store, "sale_extra", &160, &any).len(), 1);
    assert_eq!(modules_asked(&store, "sale_extra", &150, &any).len(), 0);
    let acme = RouteModuleRequest { org: Some("acme".to_string()), repo: None };
    assert_eq!(modules_asked(&store, "sale_extra", &160, &acme).len(), 1);
    assert_eq!(modules_asked(&store, "sale", &160, &acme).len(), 0);
    let other = RouteModuleRequest { org: None, repo: Some("odoo".to_string()) };
    assert_eq!(modules_asked(&store, "sale", &160, &other).len(), 1);
    let both = RouteModuleRequest { org: Some("acme".to_string()), repo: Some("odoo".to_string()) };
    assert_eq!(modules_asked(&store, "sale", &160, &both).len(), 0);
    let both = RouteModuleRequest { org: Some("odoo".to_string()), repo: Some("odoo".to_string()) };
    let found = modules_asked(&store, "sale", &160, &both);
    assert_eq!(found.len(), 1);
    assert_eq!(found[0].dependencies.pip, texts(&["lxml"]));
}

#[test]
fn repository_is_told_of_by_organization_and_bucket() {
    let store = catalog();
    let info = get_repository_generic_info(&store, "addons").unwrap();
    assert_eq!(info.name, "addons");
    assert_eq!(
        info.organizations,
        vec![("acme".to_string(), vec![("16.0".to_string(), 2), ("17.0".to_string(), 1)])]
    );
    assert!(get_repository_generic_info(&store, "nothing").is_none());
    let rows = gh_repository::get_info_by_name(&store, "odoo");
    assert_eq!(rows.len(), 1);
    assert_eq!((rows[0].organization.as_str(), rows[0].num_modules, rows[0].version_odoo), ("odoo", 1, 160));
}

#[test]
fn repository_counts_keep_the_first_of_a_pair() {
    let infos = vec![
        gh_repository::RepositoryInfo { name: "web".to_string(), organization: "a".to_string(), num_modules: 3, version_odoo: 160 },
        gh_repository::RepositoryInfo { name: "web".to_string(), organization: "b".to_string(), num_modules: 1, version_odoo: 160 },
        gh_repository::RepositoryInfo { name: "web".to_string(), organization: "a".to_string(), num_modules: 9, version_odoo: 160 },
        gh_repository::RepositoryInfo { name: "web".to_string(), organization: "a".to_string(), num_modules: 4, version_odoo: 170 },
    ];
    let info = generic_info_of("web", &infos).unwrap();
    assert_eq!(
        info.organizations,
        vec![
            ("a".to_string(), vec![("16.0".to_string(), 3), ("17.0".to_string(), 4)]),
            ("b".to_string(), vec![("16.0".to_string(), 1)]),
        ]
    );
    assert!(generic_info_of("web", &Vec::new()).is_none());
}

#[test]
fn deployment_finds_the_repository_of_each_module() {
    let store = catalog();
    let found = get_doodba_addons(&store, &texts(&["sale_extra", "missing", "sale", "sale_extra"]));
    let seen: Vec<(String, String)> =
        found.iter().map(|f| (f.technical_name.clone(), f.repository_name.clone())).collect();
    assert_eq!(
        seen,
        vec![("sale_extra".to_string(), "addons".to_string()), ("sale".to_string(), "odoo".to_string())]
    );
}

#[test]
fn deployment_gathers_what_its_modules_need() {
    let store = catalog();
    let r = get_doodba_addons_full(&store, &texts(&["sale_more", "sale_extra"]), &160);
    let mut groups = r.odoo.clone();
    groups.sort();
    assert_eq!(
        groups,
        vec![
            ("".to_string(), texts(&["base", "ghost"])),
            ("addons".to_string(), texts(&["sale_more", "sale_extra"])),
            ("odoo".to_string(), texts(&["sale"])),
        ]
    );
    assert_eq!(r.pip, texts(&["requests", "lxml"]));
    assert_eq!(r.bin, texts(&["wkhtmltopdf"]));
    let none = get_doodba_addons_full(&store, &texts(&["missing"]), &160);
    assert!(none.odoo.is_empty() && none.pip.is_empty() && none.bin.is_empty());
}

#[test]
fn merging_nothing_gives_nothing() {
    let r = merged(&process_modules_db(&Store::new(), &Vec::new()));
    assert!(r.odoo.is_empty() && r.pip.is_empty() && r.bin.is_empty());
}

#[test]
fn key_is_shortened_behind_its_first_stroke() {
    assert_eq!(shorten("acme/addons"), "addons");
    assert_eq!(shorten("a/b/c"), "b/c");
    assert_eq!(shorten("plain"), "plain");
    assert_eq!(shorten("/"), "");
    assert_eq!(shorten(""), "");
}

#[test]
fn names_are_recorded_once_under_a_key() {
    let mut groups: Vec<(String, Vec<String>)> = Vec::new();
    assert!(record(&mut groups, "acme/addons", "sale"));
    assert!(record(&mut groups, "acme/addons", "stock"));
    assert!(!record(&mut groups, "acme/addons", "sale"));
    assert!(record(&mut groups, "odoo/odoo", "sale"));
    assert_eq!(
        groups,
        vec![
            ("acme/addons".to_string(), texts(&["sale", "stock"])),
            ("odoo/odoo".to_string(), texts(&["sale"])),
        ]
    );
}

#[test]
fn stored_module_is_handed_back_under_its_identity() {
    let mut store = catalog();
    let before = store.modules[row_of(&store, "sale_extra", 160)].id;
    let organizations = store.organizations.len();
    let repositories = store.repositories.len();
    let events = store.system_events.len();
    let mut d = scraped("sale_extra", 160, "acme", "addons", "Acme, Bob", &["sale"]);
    d.external_depends_python = texts(&["requests", "lxml"]);
    d.external_depends_bin = texts(&["wkhtmltopdf"]);
    d.committers = vec![("Ann".to_string(), 2), ("Ben".to_string(), 4)];
    d.installable = false;
    let m = module::add(&mut store, &d, "2024-03-01 10:00:00").unwrap();
    assert_eq!(m.id, before);
    assert!(!m.installable);
    assert_eq!(store.organizations.len(), organizations);
    assert_eq!(store.repositories.len(), repositories);
    assert_eq!(store.system_events.len(), events + 1);
    let e = store.system_events.last().unwrap();
    assert_eq!(e.event_type_id, (3, "module".to_string()));
    assert_eq!(e.date, "2024-03-01 10:00:00");
    assert!(e.message.contains("<li>Installable: <span class='value_old'>true</span> -> <span class='value_new'>false</span></li>"));
}

#[test]
fn every_appended_event_is_dated_and_filed() {
    let mut store = Store::new();
    let d = scraped("sale_extra", 160, "acme", "addons", "Acme, Bob", &["sale", "base"]);
    reconcile(&mut store, &d, "2024-03-01 10:00:00").unwrap();
    let first = store.system_events.len();
    assert!(first > 0);
    assert!(store.system_events.iter().all(|e| e.date == "2024-03-01 10:00:00"));
    let mut d2 = scraped("sale_extra", 160, "acme", "addons", "Bob, Carl", &["sale"]);
    d2.name = "Other".to_string();
    reconcile(&mut store, &d2, "2024-04-01 10:00:00").unwrap();
    assert!(store.system_events.len() > first);
    assert!(store.system_events[first..].iter().all(|e| e.date == "2024-04-01 10:00:00"));
    let tags = ["issue", "internal", "module", "maintainer", "committer", "dependency", "author", "repository", "organization"];
    for e in store.system_events.iter() {
        assert_eq!(e.event_type_id.1, tags[(e.event_type_id.0 - 1) as usize]);
    }
}

#[test]
fn direct_dependency_with_a_stroke_in_a_name_keeps_its_parts_apart() {
    let mut store = Store::new();
    reconcile(&mut store, &scraped("core", 160, "a/b", "c", "X", &[]), NOW).unwrap();
    let asking = reconcile(&mut store, &scraped("top", 160, "z", "r", "X", &["core"]), NOW).unwrap();
    let infos = dependency::get_module_dependency_info(&store, &asking.module.id);
    assert_eq!(infos.len(), 1);
    assert_eq!(infos[0].org, "a/b");
    assert_eq!(infos[0].repo, "c");
    assert_eq!(infos[0].technical_name, "core");
}
