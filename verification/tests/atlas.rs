use oghcollector::collector::reconciler::reconcile;
use oghcollector::models::module::ManifestInfo;
use oghcollector::models::store::Store;
use oghcollector::models::module;
use oghcollector::server::atlas::{get_graph_data, set_main_node_attributes, GraphNodeInfo};
use oghcollector::server::cache::GraphCache;
use oghcollector::server::module::{construct_module_dependecies_info, full_info};

fn descriptor(org: &str, repo: &str, name: &str, depends: &[&str], python: &[&str], bin: &[&str]) -> ManifestInfo {
    ManifestInfo {
        technical_name: name.to_string(),
        version_odoo: 160,
        name: name.to_uppercase(),
        version_module: "1.0".to_string(),
        description: String::new(),
        author: "Acme, Other".to_string(),
        website: String::new(),
        license: "LGPL-3".to_string(),
        category: "Uncategorized".to_string(),
        auto_install: false,
        application: name == "sale",
        installable: true,
        maintainer: "Acme".to_string(),
        git_org: org.to_string(),
        git_repo: repo.to_string(),
        depends: depends.iter().map(|s| s.to_string()).collect(),
        external_depends_python: python.iter().map(|s| s.to_string()).collect(),
        external_depends_bin: bin.iter().map(|s| s.to_string()).collect(),
        folder_size: 10,
        last_commit_hash: "h".to_string(),
        last_commit_author: "a".to_string(),
        last_commit_date: "d".to_string(),
        last_commit_name: "n".to_string(),
        last_commit_partof: String::new(),
        committers: Vec::new(),
    }
}

fn catalog() -> Store {
    let mut store = Store::new();
    let now = "2024-01-01 00:00:00";
    reconcile(&mut store, &descriptor("odoo", "odoo", "base", &[], &[], &[]), now).unwrap();
    reconcile(&mut store, &descriptor("odoo", "odoo", "sale", &["base", "stock"], &["requests"], &[]), now).unwrap();
    reconcile(&mut store, &descriptor("odoo", "odoo", "stock", &["base", "sale"], &[], &["wkhtmltopdf"]), now).unwrap();
    reconcile(&mut store, &descriptor("acme", "addons", "sale_extra", &["sale", "ghost"], &["requests", "lxml"], &[]), now).unwrap();
    store
}

fn names_under<'a>(groups: &'a [(String, Vec<String>)], key: &str) -> Vec<&'a str> {
    groups.iter().filter(|g| g.0 == key).flat_map(|g| g.1.iter().map(|s| s.as_str())).collect()
}

#[test]
fn closure_ends_on_mutual_references() {
    let store = catalog();
    let row = store.modules.iter().position(|m| m.technical_name == "sale_extra").unwrap();
    let needs = construct_module_dependecies_info(&store, row);
    let mut core = names_under(&needs.odoo, "odoo/odoo");
    core.sort();
    assert_eq!(core, vec!["base", "sale", "stock"]);
    assert_eq!(names_under(&needs.odoo, "/"), vec!["ghost"]);
    assert_eq!(needs.odoo.len(), 2);
    assert!(needs.pip.iter().any(|p| p == "requests"));
    assert!(needs.pip.iter().any(|p| p == "lxml"));
    assert!(needs.bin.iter().any(|p| p == "wkhtmltopdf"));
}

#[test]
fn module_without_dependencies_needs_nothing() {
    let store = catalog();
    let row = store.modules.iter().position(|m| m.technical_name == "base").unwrap();
    let needs = construct_module_dependecies_info(&store, row);
    assert!(needs.odoo.is_empty());
    assert!(needs.pip.is_empty());
    assert!(needs.bin.is_empty());
}

#[test]
fn graph_skips_base_and_keys_by_kind() {
    let store = catalog();
    let graph = get_graph_data(&store, &160);
    let mut nodes: Vec<&str> = graph.nodes.iter().map(|n| n.key.as_str()).collect();
    nodes.sort();
    assert_eq!(nodes, vec!["b_wkhtmltopdf", "o_ghost", "o_sale", "o_sale_extra", "o_stock", "p_lxml", "p_requests"]);
    let mut edges: Vec<&str> = graph.edges.iter().map(|e| e.key.as_str()).collect();
    edges.sort();
    assert_eq!(
        edges,
        vec![
            "b_stock__wkhtmltopdf",
            "o_sale__stock",
            "o_sale_extra__ghost",
            "o_sale_extra__sale",
            "o_stock__sale",
            "p_sale__requests",
            "p_sale_extra__lxml",
            "p_sale_extra__requests",
        ]
    );
    let sale = graph.nodes.iter().find(|n| n.key == "o_sale").unwrap();
    assert!(sale.attributes.contains(&("size".to_string(), "12".to_string())));
    assert!(sale.attributes.contains(&("color".to_string(), "#21B799".to_string())));
    let extra = graph.nodes.iter().find(|n| n.key == "o_sale_extra").unwrap();
    assert!(extra.attributes.contains(&("size".to_string(), "8".to_string())));
    let ghost = graph.nodes.iter().find(|n| n.key == "o_ghost").unwrap();
    assert_eq!(ghost.attributes.len(), 3);
}

#[test]
fn cached_graph_has_the_same_keys() {
    let store = catalog();
    let mut cache = GraphCache::new(3600).unwrap();
    let first = cache.graph_for(&store, 160);
    let second = cache.graph_for(&store, 160);
    let keys = |g: &oghcollector::server::atlas::GraphInfo| {
        let mut k: Vec<String> = g.nodes.iter().map(|n| n.key.clone()).collect();
        k.sort();
        k
    };
    assert_eq!(keys(&first), keys(&second));
    assert_eq!(first.edges.len(), second.edges.len());
    cache.invalidate();
    assert_eq!(keys(&cache.graph_for(&store, 160)), keys(&first));
    assert!(GraphCache::new(0).is_none());
}

#[test]
fn cache_is_made_for_any_time_but_none() {
    assert!(GraphCache::new(1).is_some());
    assert!(GraphCache::new(u64::MAX).is_some());
    assert!(GraphCache::new(0).is_none());
}

fn pair(key: &str, value: &str) -> (String, String) {
    (key.to_string(), value.to_string())
}

fn row_named(store: &Store, name: &str) -> usize {
    store.modules.iter().position(|m| m.technical_name == name).unwrap()
}

#[test]
fn rank_attributes_are_set_over_what_a_node_holds() {
    let store = catalog();
    let sale: &module::Model = &store.modules[row_named(&store, "sale")];
    let first_party = sale.gh_repository_id.0;
    let mut node = GraphNodeInfo {
        key: "o_sale".to_string(),
        attributes: vec![pair("color", "red"), pair("x", "1"), pair("label", "old")],
    };
    set_main_node_attributes(sale, &first_party, &mut node);
    assert_eq!(node.key, "o_sale");
    assert_eq!(
        node.attributes,
        vec![
            pair("color", "#21B799"),
            pair("x", "1"),
            pair("label", "sale"),
            pair("size", "12"),
            pair("repository", "odoo"),
        ]
    );
}

#[test]
fn rank_attributes_follow_the_four_tiers() {
    let store = catalog();
    let sale = &store.modules[row_named(&store, "sale")];
    let stock = &store.modules[row_named(&store, "stock")];
    let first_party = sale.gh_repository_id.0;
    let tiers = [
        (sale, first_party, "12", "#21B799"),
        (stock, first_party, "10", "#017E84"),
        (sale, first_party + 1, "9", "#21B799"),
        (stock, first_party + 1, "8", "#E46E78"),
    ];
    for (m, first, size, color) in tiers {
        let mut node = GraphNodeInfo { key: "k".to_string(), attributes: Vec::new() };
        set_main_node_attributes(m, &first, &mut node);
        assert_eq!(
            node.attributes,
            vec![
                pair("size", size),
                pair("color", color),
                pair("label", &m.technical_name),
                pair("repository", "odoo"),
            ]
        );
    }
}

#[test]
fn packages_and_tools_come_in_the_order_of_the_walk() {
    let mut store = Store::new();
    let now = "2024-01-01 00:00:00";
    reconcile(&mut store, &descriptor("acme", "addons", "c", &[], &["p3", "p1"], &["t2"]), now).unwrap();
    reconcile(&mut store, &descriptor("acme", "addons", "b", &["c"], &["p2", "p1"], &["t1"]), now).unwrap();
    reconcile(&mut store, &descriptor("acme", "addons", "a", &["b", "c"], &["p1"], &["t1", "t0"]), now)
        .unwrap();
    let row = row_named(&store, "a");
    let needs = construct_module_dependecies_info(&store, row);
    assert_eq!(needs.pip, vec!["p1", "p2", "p1", "p3", "p1"]);
    assert_eq!(needs.bin, vec!["t1", "t0", "t1", "t2"]);
    assert_eq!(needs.odoo, vec![("acme/addons".to_string(), vec!["b".to_string(), "c".to_string()])]);
    let info = full_info(&store, row);
    assert_eq!(info.dependencies.pip, vec!["p1", "p2", "p3"]);
    assert_eq!(info.dependencies.bin, vec!["t1", "t0", "t2"]);
}

#[test]
fn module_without_dependencies_has_no_key_either() {
    let store = catalog();
    let needs = construct_module_dependecies_info(&store, row_named(&store, "base"));
    assert!(needs.odoo.is_empty());
    assert!(needs.pip.is_empty());
    assert!(needs.bin.is_empty());
}

#[test]
fn deployment_names_every_module_asked_for() {
    let store = catalog();
    let mods = vec!["sale".to_string(), "stock".to_string(), "missing".to_string()];
    let r = oghcollector::server::doodba_tools::get_doodba_addons_full(&store, &mods, &160);
    assert_eq!(names_under(&r.odoo, "odoo"), vec!["sale", "base", "stock"]);
    let rows = oghcollector::server::doodba_tools::named_rows(&store, &mods, &160);
    let named: Vec<&str> = rows.iter().map(|m| m.technical_name.as_str()).collect();
    assert_eq!(named, vec!["sale", "stock"]);
    let twice = vec!["sale".to_string(), "sale".to_string()];
    assert_eq!(oghcollector::server::doodba_tools::named_rows(&store, &twice, &160).len(), 2);
    assert!(oghcollector::server::doodba_tools::named_rows(&store, &mods, &170).is_empty());
}
