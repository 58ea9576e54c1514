use oghcollector::collector::analyzer::{
    committers_in, manifest_file_of, read_manifest, GitInfo, OGHCollectorAnalyzer, RawFlag,
    RawManifest,
};

fn names(list: &[&str]) -> Vec<String> {
    list.iter().map(|s| s.to_string()).collect()
}

fn bare() -> RawManifest {
    RawManifest {
        name: None,
        description: None,
        author: Vec::new(),
        website: None,
        license: None,
        category: None,
        auto_install: RawFlag::Missing,
        version: None,
        application: None,
        installable: RawFlag::Missing,
        maintainer: None,
        depends: Vec::new(),
        python: Vec::new(),
        bin: Vec::new(),
        deb: Vec::new(),
    }
}

#[test]
fn log_entry_with_pull_request_is_taken_apart() {
    let out = "abc123~~Ann Lee~~Mon, 1 Jan 2024 10:00:00 +0000~~[ADD] sale_extra~~Some body\n\nPart-of: OCA/sale#12\nSigned-off-by: Bob";
    let info = GitInfo::parse(out).unwrap();
    assert_eq!(info.last_commit_hash, "abc123");
    assert_eq!(info.last_commit_author, "Ann Lee");
    assert_eq!(info.last_commit_date, "Mon, 1 Jan 2024 10:00:00 +0000");
    assert_eq!(info.last_commit_name, "[ADD] sale_extra");
    assert_eq!(info.last_commit_partof, "OCA/sale#12");
}

#[test]
fn log_entry_without_pull_request_has_none() {
    let info = GitInfo::parse("0f0f~~Ann~~today~~subject~~").unwrap();
    assert_eq!(info.last_commit_hash, "0f0f");
    assert_eq!(info.last_commit_author, "Ann");
    assert_eq!(info.last_commit_date, "today");
    assert_eq!(info.last_commit_name, "subject");
    assert_eq!(info.last_commit_partof, "");
}

#[test]
fn other_output_is_no_log_entry() {
    assert!(GitInfo::parse("").is_none());
    assert!(GitInfo::parse("fatal: not a git repository").is_none());
}

#[test]
fn captured_groups_are_trimmed() {
    let groups = vec![
        Some("whole".to_string()),
        Some(" abc ".to_string()),
        Some("Ann".to_string()),
        Some("date".to_string()),
        Some(" subject".to_string()),
        None,
    ];
    let info = GitInfo::from_capture(&groups);
    assert_eq!(info.last_commit_hash, "abc");
    assert_eq!(info.last_commit_name, "subject");
    assert_eq!(info.last_commit_partof, "");
}

#[test]
fn committers_are_counted_in_order_of_first_commit_listed() {
    let r = committers_in("Ann\nBob\nAnn\nCarl\nAnn\n");
    assert_eq!(
        r,
        vec![("Ann".to_string(), 3), ("Bob".to_string(), 1), ("Carl".to_string(), 1)]
    );
    assert!(committers_in("").is_empty());
    assert_eq!(committers_in("Ann"), vec![("Ann".to_string(), 1)]);
}

#[test]
fn description_gets_its_defaults() {
    let info = read_manifest(&bare(), "acme", "addons", "sale_extra", 160).unwrap();
    assert_eq!(info.technical_name, "sale_extra");
    assert_eq!(info.git_org, "acme");
    assert_eq!(info.git_repo, "addons");
    assert_eq!(info.name, "");
    assert_eq!(info.license, "LGPL-3");
    assert_eq!(info.category, "Uncategorized");
    assert_eq!(info.version_odoo, 160);
    assert_eq!(info.version_module, "0.1.0");
    assert!(!info.auto_install);
    assert!(!info.application);
    assert!(info.installable);
    assert_eq!(info.author, "");
    assert_eq!(info.maintainer, "");
    assert!(info.depends.is_empty());
    assert_eq!(info.folder_size, 0);
    assert!(info.committers.is_empty());
    assert_eq!(info.last_commit_hash, "");
}

#[test]
fn description_is_read_as_given() {
    let mut raw = bare();
    raw.name = Some("Sale Extra".to_string());
    raw.author = names(&["Acme", "Bob"]);
    raw.license = Some("AGPL-3".to_string());
    raw.category = Some("Sales".to_string());
    raw.version = Some("15.0.2.1.0".to_string());
    raw.installable = RawFlag::Is(false);
    raw.application = Some(true);
    raw.depends = names(&["sale", "base", "sale"]);
    raw.python = names(&["requests", "lxml", "requests"]);
    raw.bin = names(&["wkhtmltopdf"]);
    raw.deb = names(&["libxml2", "wkhtmltopdf"]);
    let info = read_manifest(&raw, "acme", "addons", "sale_extra", 160).unwrap();
    assert_eq!(info.name, "Sale Extra");
    assert_eq!(info.author, "Acme, Bob");
    assert_eq!(info.maintainer, "Acme, Bob");
    assert_eq!(info.license, "AGPL-3");
    assert_eq!(info.category, "Sales");
    assert_eq!(info.version_odoo, 150);
    assert_eq!(info.version_module, "2.1.0");
    assert!(!info.installable);
    assert!(info.application);
    assert_eq!(info.depends, names(&["sale", "base", "sale"]));
    assert_eq!(info.external_depends_python, names(&["requests", "lxml"]));
    assert_eq!(info.external_depends_bin, names(&["wkhtmltopdf", "libxml2"]));
}

#[test]
fn maintainers_are_joined_where_given() {
    let mut raw = bare();
    raw.author = names(&["Acme"]);
    raw.maintainer = Some(names(&["ann", "bob"]));
    raw.version = Some("1.0".to_string());
    let info = read_manifest(&raw, "acme", "addons", "m", 170).unwrap();
    assert_eq!(info.maintainer, "ann, bob");
    assert_eq!(info.version_odoo, 170);
    assert_eq!(info.version_module, "1.0");
}

#[test]
fn description_with_a_bad_version_is_refused() {
    let mut raw = bare();
    raw.version = Some("x.y.1.0.0".to_string());
    assert!(read_manifest(&raw, "acme", "addons", "m", 160).is_none());
}

#[test]
fn analyzer_reads_for_its_bucket() {
    let analyzer = OGHCollectorAnalyzer::new(&140);
    let info = analyzer.read_manifest("acme", "addons", "m", &bare()).unwrap();
    assert_eq!(info.version_odoo, 140);
    let git = GitInfo {
        last_commit_hash: "abc".to_string(),
        last_commit_author: "Ann".to_string(),
        last_commit_date: "today".to_string(),
        last_commit_name: "subject".to_string(),
        last_commit_partof: "OCA/web#1".to_string(),
    };
    let done = OGHCollectorAnalyzer::complete(info, 4096, git, vec![("Ann".to_string(), 2)]);
    assert_eq!(done.folder_size, 4096);
    assert_eq!(done.last_commit_hash, "abc");
    assert_eq!(done.last_commit_author, "Ann");
    assert_eq!(done.last_commit_date, "today");
    assert_eq!(done.last_commit_name, "subject");
    assert_eq!(done.last_commit_partof, "OCA/web#1");
    assert_eq!(done.committers, vec![("Ann".to_string(), 2)]);
    assert_eq!(done.technical_name, "m");
    assert_eq!(done.license, "LGPL-3");
}

#[test]
fn module_folder_is_known_by_its_description() {
    assert_eq!(
        manifest_file_of(&names(&["README.rst", "__manifest__.py", "__openerp__.py"])),
        Some("__manifest__.py".to_string())
    );
    assert_eq!(
        manifest_file_of(&names(&["__openerp__.py", "__init__.py"])),
        Some("__openerp__.py".to_string())
    );
    assert_eq!(manifest_file_of(&names(&["__init__.py", "manifest.py"])), None);
    assert_eq!(manifest_file_of(&Vec::new()), None);
}

#[test]
fn flag_that_is_neither_yes_nor_no_counts_as_yes() {
    let mut raw = bare();
    raw.auto_install = RawFlag::Other;
    raw.installable = RawFlag::Other;
    let info = read_manifest(&raw, "acme", "addons", "m", 160).unwrap();
    assert!(info.auto_install);
    assert!(info.installable);
    raw.auto_install = RawFlag::Is(true);
    raw.installable = RawFlag::Is(false);
    let info = read_manifest(&raw, "acme", "addons", "m", 160).unwrap();
    assert!(info.auto_install);
    assert!(!info.installable);
    assert!(!RawFlag::Missing.or(false));
    assert!(RawFlag::Missing.or(true));
}
