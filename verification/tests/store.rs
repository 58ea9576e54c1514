use oghcollector::collector::reconciler::{place_settled, reconcile};
use oghcollector::models::dependency;
use oghcollector::models::dependency_module;
use oghcollector::models::dependency_type;
use oghcollector::models::gh_organization;
use oghcollector::models::gh_repository;
use oghcollector::models::module;
use oghcollector::models::module::ManifestInfo;
use oghcollector::models::module_author;
use oghcollector::models::module_committer;
use oghcollector::models::module_maintainer;
use oghcollector::models::store::{Store, StoreError};
use oghcollector::models::system_event;
use oghcollector::models::system_event::EventKind;
use oghcollector::models::system_event_type;

const NOW: &str = "2024-01-01 10:00:00";
const LATER: &str = "2024-02-01 10:00:00";

fn texts(list: &[&str]) -> Vec<String> {
    list.iter().map(|s| s.to_string()).collect()
}

fn descriptor(technical_name: &str, repo: &str) -> ManifestInfo {
    ManifestInfo {
        technical_name: technical_name.to_string(),
        version_odoo: 160,
        name: "Sale Extra".to_string(),
        version_module: "1.0.0.0".to_string(),
        description: "More for sales".to_string(),
        author: "Acme, Bob".to_string(),
        website: "https://acme.example".to_string(),
        license: "LGPL-3".to_string(),
        category: "Uncategorized".to_string(),
        auto_install: false,
        application: false,
        installable: true,
        maintainer: "Acme".to_string(),
        git_org: "acme".to_string(),
        git_repo: repo.to_string(),
        depends: texts(&["sale", "base"]),
        external_depends_python: texts(&["requests"]),
        external_depends_bin: texts(&["wkhtmltopdf"]),
        folder_size: 1024,
        last_commit_hash: "abc123".to_string(),
        last_commit_author: "Ann".to_string(),
        last_commit_date: "Mon, 1 Jan 2024 10:00:00 +0000".to_string(),
        last_commit_name: "[ADD] sale_extra".to_string(),
        last_commit_partof: String::new(),
        committers: vec![("Ann".to_string(), 3)],
    }
}

fn count_kind(store: &Store, kind: EventKind) -> usize {
    store.system_events.iter().filter(|e| e.kind == kind).count()
}

fn sizes(store: &Store) -> Vec<usize> {
    vec![
        store.organizations.len(),
        store.repositories.len(),
        store.modules.len(),
        store.authors.len(),
        store.maintainers.len(),
        store.committers.len(),
        store.module_authors.len(),
        store.module_maintainers.len(),
        store.module_committers.len(),
        store.dependencies.len(),
        store.dependency_modules.len(),
        store.dependency_osvs.len(),
        store.system_events.len(),
    ]
}

#[test]
fn new_catalog_is_empty() {
    let store = Store::new();
    assert_eq!(sizes(&store), vec![0; 13]);
    assert_eq!(store.last_id, 0);
}

#[test]
fn identities_come_from_one_sequence() {
    let mut store = Store::new();
    let org = gh_organization::add(&mut store, "acme", NOW);
    let repo = gh_repository::add(&mut store, &org.id, "addons", NOW);
    assert_eq!(org.id, 1);
    assert_eq!(repo.id, 2);
    assert_eq!(store.last_id, 2);
    assert_eq!(repo.gh_organization_id, (1, "acme".to_string()));
}

#[test]
fn organization_and_repository_are_entered_once() {
    let mut store = Store::new();
    let org = gh_organization::add(&mut store, "acme", NOW);
    let again = gh_organization::add(&mut store, "acme", LATER);
    assert_eq!(org.id, again.id);
    assert_eq!(store.organizations.len(), 1);
    let repo = gh_repository::add(&mut store, &org.id, "addons", NOW);
    let same = gh_repository::add(&mut store, &org.id, "addons", LATER);
    assert_eq!(repo.id, same.id);
    assert_eq!(same.create_date, NOW);
    assert_eq!(store.repositories.len(), 1);
    assert_eq!(count_kind(&store, EventKind::NewOrganization), 1);
    assert_eq!(count_kind(&store, EventKind::NewRepository), 1);
    assert!(gh_organization::get_by_name(&store, "acme").is_some());
    assert!(gh_organization::get_by_name(&store, "other").is_none());
    assert!(gh_repository::get_by_name(&store, &org.id, "addons").is_some());
    assert!(gh_repository::get_by_id(&store, &99).is_none());
}

#[test]
fn first_reconciliation_enters_everything() {
    let mut store = Store::new();
    let out = reconcile(&mut store, &descriptor("sale_extra", "addons"), NOW).unwrap();
    assert_eq!(store.organizations.len(), 1);
    assert_eq!(store.repositories.len(), 1);
    assert_eq!(store.modules.len(), 1);
    assert_eq!(out.module.technical_name, "sale_extra");
    assert_eq!(out.module.version_odoo, 160);
    assert_eq!(out.module.gh_repository_id.1, "addons");
    assert_eq!(out.module.create_date, NOW);
    assert_eq!(out.module.update_date, NOW);
    assert_eq!(out.module.folder_size, 1024);
    assert_eq!(out.module.last_commit_hash, "abc123");
    assert_eq!(module_author::get_names_by_module_id(&store, &out.module.id), texts(&["Acme", "Bob"]));
    assert_eq!(module_maintainer::get_names_by_module_id(&store, &out.module.id), texts(&["Acme"]));
    assert_eq!(module_committer::get_names_by_module_id(&store, &out.module.id), texts(&["Ann"]));
    let ann = module_committer::get_by_name(&store, &out.module.id, "Ann").unwrap();
    assert_eq!(ann.commits, 3);
    assert_eq!(
        dependency_module::get_names(&store, &out.module.id, &dependency_type::MODULE),
        texts(&["sale", "base"])
    );
    assert_eq!(
        dependency_module::get_names(&store, &out.module.id, &dependency_type::PYTHON),
        texts(&["requests"])
    );
    assert_eq!(
        dependency_module::get_names(&store, &out.module.id, &dependency_type::BIN),
        texts(&["wkhtmltopdf"])
    );
    assert_eq!(out.new_python_edges.len(), 1);
    assert_eq!(out.new_python_edges[0].dependency_id.1, "requests");
    assert_eq!(count_kind(&store, EventKind::NewModule), 1);
    assert_eq!(count_kind(&store, EventKind::UpdatedModule), 0);
}

#[test]
fn new_module_is_reported_in_words() {
    let mut store = Store::new();
    reconcile(&mut store, &descriptor("sale_extra", "addons"), NOW).unwrap();
    let e = store.system_events.iter().find(|e| e.kind == EventKind::NewModule).unwrap();
    assert_eq!(
        e.message,
        "New module '<span class='module_tech_name'>sale_extra</span>' \
         (<span class='module_name'>Sale Extra</span>) \
         [<span class='module_version'>1.0.0.0</span>] added in \
         '<span class='org_name'>acme</span>/<span class='repo_name'>addons</span>' \
         [<span class='module_odoo_version'>16.0</span>]"
    );
    assert_eq!(e.date, NOW);
    assert_eq!(e.event_type_id.1, "module");
    assert_eq!(e.subject, "sale_extra");
}

#[test]
fn second_identical_reconciliation_writes_nothing() {
    let mut store = Store::new();
    let first = reconcile(&mut store, &descriptor("sale_extra", "addons"), NOW).unwrap();
    let before = sizes(&store);
    let last_id = store.last_id;
    let second = reconcile(&mut store, &descriptor("sale_extra", "addons"), LATER).unwrap();
    assert_eq!(sizes(&store), before);
    assert_eq!(store.last_id, last_id);
    assert_eq!(second.module.id, first.module.id);
    assert_eq!(second.module.update_date, NOW);
    assert!(second.new_python_edges.is_empty());
}

#[test]
fn one_row_for_each_name_bucket_and_repository() {
    let mut store = Store::new();
    reconcile(&mut store, &descriptor("sale_extra", "addons"), NOW).unwrap();
    reconcile(&mut store, &descriptor("sale_extra", "addons"), LATER).unwrap();
    assert_eq!(store.modules.len(), 1);
    reconcile(&mut store, &descriptor("sale_extra", "other"), LATER).unwrap();
    assert_eq!(store.modules.len(), 2);
    let mut d = descriptor("sale_extra", "addons");
    d.version_odoo = 170;
    reconcile(&mut store, &d, LATER).unwrap();
    assert_eq!(store.modules.len(), 3);
    reconcile(&mut store, &d, LATER).unwrap();
    reconcile(&mut store, &descriptor("sale_extra", "other"), LATER).unwrap();
    assert_eq!(store.modules.len(), 3);
    assert_eq!(module::get_by_technical_name(&store, "sale_extra", &160, &store.repositories[0].id).unwrap().version_odoo, 160);
}

#[test]
fn dependencies_follow_the_scrape_with_one_event_for_each_change() {
    let mut store = Store::new();
    let mut d = descriptor("sale_extra", "addons");
    d.depends = texts(&["a", "b", "c"]);
    let first = reconcile(&mut store, &d, NOW).unwrap();
    let gained = count_kind(&store, EventKind::NewDependency);
    let lost = count_kind(&store, EventKind::DeletedDependency);
    d.depends = texts(&["b", "d"]);
    reconcile(&mut store, &d, LATER).unwrap();
    assert_eq!(
        dependency_module::get_names(&store, &first.module.id, &dependency_type::MODULE),
        texts(&["b", "d"])
    );
    assert_eq!(count_kind(&store, EventKind::DeletedDependency), lost + 2);
    assert_eq!(count_kind(&store, EventKind::NewDependency), gained + 1);
    assert_eq!(
        dependency_module::get_names(&store, &first.module.id, &dependency_type::PYTHON),
        texts(&["requests"])
    );
}

#[test]
fn authors_follow_the_scrape() {
    let mut store = Store::new();
    let mut d = descriptor("sale_extra", "addons");
    let first = reconcile(&mut store, &d, NOW).unwrap();
    d.author = "Bob, Carl".to_string();
    d.maintainer = "Dora".to_string();
    reconcile(&mut store, &d, LATER).unwrap();
    assert_eq!(module_author::get_names_by_module_id(&store, &first.module.id), texts(&["Bob", "Carl"]));
    assert_eq!(module_maintainer::get_names_by_module_id(&store, &first.module.id), texts(&["Dora"]));
    assert_eq!(count_kind(&store, EventKind::DeletedAuthor), 1);
    assert_eq!(count_kind(&store, EventKind::DeletedMaintainer), 1);
    assert_eq!(count_kind(&store, EventKind::UpdatedModule), 0);
    assert_eq!(store.authors.len(), 3);
}

#[test]
fn committer_counts_are_brought_up_to_date_in_place() {
    let mut store = Store::new();
    let mut d = descriptor("sale_extra", "addons");
    let first = reconcile(&mut store, &d, NOW).unwrap();
    d.committers = vec![("Ann".to_string(), 5), ("Ben".to_string(), 1)];
    reconcile(&mut store, &d, LATER).unwrap();
    assert_eq!(store.module_committers.len(), 2);
    assert_eq!(module_committer::get_by_name(&store, &first.module.id, "Ann").unwrap().commits, 5);
    assert_eq!(module_committer::get_by_name(&store, &first.module.id, "Ben").unwrap().commits, 1);
    assert_eq!(count_kind(&store, EventKind::UpdatedModule), 0);
}

#[test]
fn changed_fields_are_reported_with_the_commit_before() {
    let mut store = Store::new();
    let mut d = descriptor("sale_extra", "addons");
    let first = reconcile(&mut store, &d, NOW).unwrap();
    d.name = "Sale Extra 2".to_string();
    d.folder_size = 2048;
    d.last_commit_hash = "def456".to_string();
    let events = store.system_events.len();
    let second = reconcile(&mut store, &d, LATER).unwrap();
    assert_eq!(store.system_events.len(), events + 1);
    assert_eq!(second.module.id, first.module.id);
    assert_eq!(second.module.name, "Sale Extra 2");
    assert_eq!(second.module.folder_size, 2048);
    assert_eq!(second.module.update_date, LATER);
    assert_eq!(second.module.create_date, NOW);
    let e = store.system_events.last().unwrap();
    assert_eq!(e.kind, EventKind::UpdatedModule);
    assert_eq!(
        e.message,
        "Module '<span class='module_tech_name'>sale_extra</span>' \
         (<span class='module_name'>Sale Extra 2</span>) \
         [<span class='module_version'>1.0.0.0</span>] in \
         '<span class='org_name'>acme</span>/<span class='repo_name'>addons</span>' \
         [<span class='module_odoo_version'>16.0</span>] updated:\
         <ul class='module_changes'>\
         <li>Name: <span class='value_old'>Sale Extra</span> -> \
         <span class='value_new'>Sale Extra 2</span></li>\
         <li>Folder Size: <span class='value_old'>1024</span> -> \
         <span class='value_new'>2048</span></li></ul>\
         <div class='commit_info'>\
         <a class='git_commit' href='https://github.com/acme/addons/commit/abc123'>[ADD] sale_extra</a> \
         - <span class='git_author'>Ann</span> \
         - <span class='git_date'>Mon, 1 Jan 2024 10:00:00 +0000</span></div>"
    );
}

#[test]
fn reconciliation_fails_where_identities_run_out() {
    let mut store = Store::new();
    store.last_id = i64::MAX - 1;
    let before = sizes(&store);
    let r = reconcile(&mut store, &descriptor("sale_extra", "addons"), NOW);
    assert!(matches!(r, Err(StoreError::IdsExhausted)));
    assert_eq!(sizes(&store), before);
    assert_eq!(store.last_id, i64::MAX - 1);
}

#[test]
fn adding_a_module_fails_where_identities_run_out() {
    let mut store = Store::new();
    store.last_id = i64::MAX;
    let r = module::add(&mut store, &descriptor("sale_extra", "addons"), NOW);
    assert!(matches!(r, Err(StoreError::IdsExhausted)));
    assert_eq!(store.modules.len(), 0);
}

#[test]
fn purge_takes_stale_modules_with_what_they_own() {
    let mut store = Store::new();
    let kept = reconcile(&mut store, &descriptor("sale_extra", "addons"), NOW).unwrap();
    let stale = reconcile(&mut store, &descriptor("sale_old", "addons"), NOW).unwrap();
    let elsewhere = reconcile(&mut store, &descriptor("sale_old", "other"), NOW).unwrap();
    let repo = kept.module.gh_repository_id.0;
    let events = store.system_events.len();
    let gone = module::delete_outdated(&mut store, &repo, &160, &[kept.module.id]);
    assert_eq!(gone, 1);
    assert_eq!(store.modules.len(), 2);
    assert!(module::get_by_id(&store, &stale.module.id).is_none());
    assert!(module::get_by_id(&store, &kept.module.id).is_some());
    assert!(module::get_by_id(&store, &elsewhere.module.id).is_some());
    assert!(module_author::get_by_module_id(&store, &stale.module.id).is_empty());
    assert!(module_maintainer::get_by_module_id(&store, &stale.module.id).is_empty());
    assert!(module_committer::get_by_module_id(&store, &stale.module.id).is_empty());
    assert!(store.dependency_modules.iter().all(|e| e.module_id.0 != stale.module.id));
    assert_eq!(module_author::get_names_by_module_id(&store, &kept.module.id), texts(&["Acme", "Bob"]));
    assert_eq!(store.dependency_modules.len(), 8);
    assert_eq!(store.system_events.len(), events);
    assert_eq!(store.dependencies.len(), 4);
}

#[test]
fn purge_with_nothing_kept_takes_every_module_of_the_scope() {
    let mut store = Store::new();
    let kept = reconcile(&mut store, &descriptor("sale_extra", "addons"), NOW).unwrap();
    reconcile(&mut store, &descriptor("sale_old", "addons"), NOW).unwrap();
    let elsewhere = reconcile(&mut store, &descriptor("sale_old", "other"), NOW).unwrap();
    let mut newer = descriptor("sale_extra", "addons");
    newer.version_odoo = 170;
    let newer = reconcile(&mut store, &newer, NOW).unwrap();
    let gone = module::delete_outdated(&mut store, &kept.module.gh_repository_id.0, &160, &[]);
    assert_eq!(gone, 2);
    assert_eq!(store.modules.len(), 2);
    assert!(module::get_by_id(&store, &elsewhere.module.id).is_some());
    assert!(module::get_by_id(&store, &newer.module.id).is_some());
    assert!(module::get_by_id(&store, &kept.module.id).is_none());
    assert_eq!(store.dependency_modules.len(), 8);
    assert!(store.is_wf());
}

#[test]
fn purge_leaves_other_buckets_alone() {
    let mut store = Store::new();
    let kept = reconcile(&mut store, &descriptor("sale_extra", "addons"), NOW).unwrap();
    let gone = module::delete_outdated(&mut store, &kept.module.gh_repository_id.0, &170, &[0]);
    assert_eq!(gone, 0);
    let gone = module::delete_outdated(&mut store, &kept.module.gh_repository_id.0, &160, &[0]);
    assert_eq!(gone, 1);
    assert!(store.modules.is_empty());
    assert!(store.dependency_modules.is_empty());
    assert!(store.module_authors.is_empty());
}

#[test]
fn dependency_is_entered_once_for_each_kind() {
    let mut store = Store::new();
    let a = dependency::add(&mut store, &dependency_type::PYTHON, "requests");
    let b = dependency::add(&mut store, &dependency_type::PYTHON, "requests");
    let c = dependency::add(&mut store, &dependency_type::BIN, "requests");
    assert_eq!(a.id, b.id);
    assert_ne!(a.id, c.id);
    assert_eq!(store.dependencies.len(), 2);
    assert_eq!(dependency::get_by_name(&store, &dependency_type::BIN, "requests").unwrap().id, c.id);
    assert!(dependency::get_by_name(&store, &dependency_type::MODULE, "requests").is_none());
}

#[test]
fn kinds_and_tags_are_fixed() {
    assert_eq!(dependency_type::get_by_name("module").unwrap().id, dependency_type::MODULE);
    assert_eq!(dependency_type::get_by_name("python").unwrap().id, dependency_type::PYTHON);
    assert_eq!(dependency_type::get_by_name("bin").unwrap().id, dependency_type::BIN);
    assert!(dependency_type::get_by_name("deb").is_none());
    assert_eq!(dependency_type::get_by_id(&2).unwrap().name, "python");
    assert!(dependency_type::get_by_id(&4).is_none());
    assert!(system_event_type::get_by_name("module").is_some());
    assert!(system_event_type::get_by_name("nothing").is_none());
}

#[test]
fn events_of_a_month_come_newest_first() {
    let mut store = Store::new();
    system_event::register_finished_task_collector(&mut store, "10", "5", "acme", "16.0", "2024-01-05 10:00:00");
    system_event::register_finished_task_collector(&mut store, "11", "6", "acme", "16.0", "2024-02-01 10:00:00");
    system_event::register_finished_task_collector(&mut store, "12", "7", "acme", "16.0", "2024-01-09 10:00:00");
    let january = system_event::get_messages_current_month(&store, "2024-01");
    assert_eq!(january.len(), 2);
    assert_eq!(january[0].date, "2024-01-09 10:00:00");
    assert_eq!(january[1].date, "2024-01-05 10:00:00");
    assert_eq!(
        january[1].message,
        "Scan finished in 10 seconds: <span class='number_modules'>5</span> modules collected in \
         '<span class='org_name'>acme</span>' [<span class='odoo_version'>16.0</span>]"
    );
    assert!(system_event::get_messages_current_month(&store, "2023-12").is_empty());
}

#[test]
fn catalog_made_by_the_library_holds_its_invariant() {
    let mut store = Store::new();
    assert!(store.is_wf());
    reconcile(&mut store, &descriptor("sale_extra", "addons"), NOW).unwrap();
    reconcile(&mut store, &descriptor("sale_old", "other"), NOW).unwrap();
    assert!(store.is_wf());
    let repo = store.repositories[0].id;
    module::delete_outdated(&mut store, &repo, &160, &[0]);
    assert!(store.is_wf());
}

#[test]
fn catalog_with_bad_rows_is_told_apart() {
    let mut base = Store::new();
    reconcile(&mut base, &descriptor("sale_extra", "addons"), NOW).unwrap();
    reconcile(&mut base, &descriptor("sale_old", "addons"), NOW).unwrap();

    let mut store = reconciled_twice();
    store.last_id = store.modules[0].id - 1;
    assert!(!store.is_wf());

    let mut store = reconciled_twice();
    store.last_id = -1;
    assert!(!store.is_wf());

    let mut store = reconciled_twice();
    store.modules[1].id = store.modules[0].id;
    assert!(!store.is_wf());

    let mut store = reconciled_twice();
    store.modules[1].technical_name = "sale_extra".to_string();
    assert!(!store.is_wf());

    let mut store = reconciled_twice();
    store.modules[0].gh_repository_id.1 = "elsewhere".to_string();
    assert!(!store.is_wf());

    let mut store = reconciled_twice();
    store.dependencies[0].dependency_type_id = (4, "deb".to_string());
    assert!(!store.is_wf());

    let mut store = reconciled_twice();
    store.module_authors[0].author_id.0 = 9999;
    assert!(!store.is_wf());

    let mut store = reconciled_twice();
    store.organizations.clear();
    assert!(!store.is_wf());

    assert!(base.is_wf());
}

fn reconciled_twice() -> Store {
    let mut store = Store::new();
    reconcile(&mut store, &descriptor("sale_extra", "addons"), NOW).unwrap();
    reconcile(&mut store, &descriptor("sale_old", "addons"), NOW).unwrap();
    store
}

#[test]
fn descriptor_with_a_committer_twice_is_told_apart() {
    let mut d = descriptor("sale_extra", "addons");
    assert!(d.is_wf());
    d.committers = vec![("Ann".to_string(), 1), ("Bob".to_string(), 2), ("Ann".to_string(), 3)];
    assert!(!d.is_wf());
    d.committers.clear();
    assert!(d.is_wf());
}

#[test]
fn month_is_the_start_of_a_date() {
    assert_eq!(system_event::month_of("2024-01-09 10:00:00"), "2024-01");
    assert_eq!(system_event::month_of("2024-01"), "2024-01");
    assert_eq!(system_event::month_of("2024"), "2024");
    assert_eq!(system_event::month_of(""), "");
}

#[test]
fn identical_reconciliation_succeeds_with_no_identity_left() {
    let mut store = Store::new();
    let first = reconcile(&mut store, &descriptor("sale_extra", "addons"), NOW).unwrap();
    store.last_id = i64::MAX;
    let before = sizes(&store);
    let second = reconcile(&mut store, &descriptor("sale_extra", "addons"), LATER).unwrap();
    assert_eq!(second.module.id, first.module.id);
    assert_eq!(second.module.update_date, NOW);
    assert!(second.new_python_edges.is_empty());
    assert_eq!(sizes(&store), before);
    let again = module::add(&mut store, &descriptor("sale_extra", "addons"), LATER).unwrap();
    assert_eq!(again.id, first.module.id);
    assert_eq!(sizes(&store), before);
    let mut changed = descriptor("sale_extra", "addons");
    changed.depends = texts(&["sale"]);
    assert!(matches!(reconcile(&mut store, &changed, LATER), Err(StoreError::IdsExhausted)));
    assert_eq!(sizes(&store), before);
}

#[test]
fn being_settled_is_told() {
    let mut store = Store::new();
    assert_eq!(place_settled(&store, &descriptor("sale_extra", "addons")), None);
    reconcile(&mut store, &descriptor("sale_old", "addons"), NOW).unwrap();
    reconcile(&mut store, &descriptor("sale_extra", "addons"), NOW).unwrap();
    assert_eq!(place_settled(&store, &descriptor("sale_extra", "addons")), Some(1));
    assert_eq!(module::place_settled(&store, &descriptor("sale_extra", "addons")), Some((0, 1)));
    let mut d = descriptor("sale_extra", "addons");
    d.depends = texts(&["base", "sale"]);
    assert_eq!(place_settled(&store, &d), Some(1));
    d.depends = texts(&["sale"]);
    assert_eq!(place_settled(&store, &d), None);
    assert_eq!(module::place_settled(&store, &d), Some((0, 1)));
    let mut d = descriptor("sale_extra", "addons");
    d.author = "Bob, Acme, Bob".to_string();
    assert_eq!(place_settled(&store, &d), Some(1));
    d.author = "Bob".to_string();
    assert_eq!(place_settled(&store, &d), None);
    let mut d = descriptor("sale_extra", "addons");
    d.committers = vec![("Ann".to_string(), 4)];
    assert_eq!(place_settled(&store, &d), None);
    let mut d = descriptor("sale_extra", "addons");
    d.website = String::new();
    assert_eq!(place_settled(&store, &d), Some(1));
    assert_eq!(place_settled(&store, &descriptor("sale_extra", "elsewhere")), None);
}

#[test]
fn fields_are_brought_up_to_date_with_no_identity_left() {
    let mut store = Store::new();
    let first = reconcile(&mut store, &descriptor("sale_extra", "addons"), NOW).unwrap();
    store.last_id = i64::MAX;
    let before = sizes(&store);
    let mut d = descriptor("sale_extra", "addons");
    d.installable = false;
    d.last_commit_hash = "def456".to_string();
    let second = reconcile(&mut store, &d, LATER).unwrap();
    assert_eq!(second.module.id, first.module.id);
    assert!(!second.module.installable);
    assert_eq!(second.module.update_date, LATER);
    assert_eq!(store.last_id, i64::MAX);
    assert_eq!(store.system_events.len(), before[12] + 1);
    let e = store.system_events.last().unwrap();
    assert_eq!(e.kind, EventKind::UpdatedModule);
    assert!(e.message.contains("<li>Installable: <span class='value_old'>true</span> -> <span class='value_new'>false</span></li>"));
    assert!(e.message.contains("/commit/abc123'"));
    assert!(!e.message.contains("def456"));
    let mut people = descriptor("sale_extra", "addons");
    people.installable = false;
    people.author = "Acme, Bob, Carl".to_string();
    assert!(matches!(reconcile(&mut store, &people, LATER), Err(StoreError::IdsExhausted)));
}
