//! Modules: the rows that a scrape brings up to date, and what the catalog
//! can say of them.

use crate::models::dependency_module;
use crate::models::dependency_osv;
use crate::models::gh_organization;
use crate::models::gh_repository;
use crate::models::module_author;
use crate::models::module_committer;
use crate::models::module_maintainer;
use crate::models::store::{Store, StoreError};
use crate::models::system_event::{
    dated,
    changes_of, extends, lemma_said_after_push, lemma_said_in_turn, lemma_said_nothing,
    new_module_message, one_each, register_new_module, register_update_module, said,
    update_module_message, EventKind, LogUpdateModuleInfo, Signature,
};
use crate::names::{distinct, minus, name_list, names_in};
use crate::text::{decimal_string, decimal_text, same_text, texts};
use crate::version::{odoo_version_text, odoo_version_u8_to_string};
pub use crate::models::ranking::{count_organization, rank_committer, rank_contributor};
pub use crate::models::search::{
    get_generic_info, get_generic_info_by_installable, get_generic_info_by_odoo_version,
    get_generic_info_by_odoo_version_installable,
};
use vstd::prelude::*;

verus! {

/// A module. `gh_repository_id` is the identity of its repository and a copy
/// of that repository's name. The five `last_commit_` fields are the commit
/// that last touched the module when it was entered.
#[derive(Debug)]
pub struct Model {
    pub id: i64,
    pub technical_name: String,
    pub version_odoo: u8,
    pub name: String,
    pub version_module: String,
    pub description: String,
    pub website: String,
    pub license: String,
    pub category: String,
    pub auto_install: bool,
    pub application: bool,
    pub installable: bool,
    pub gh_repository_id: (i64, String),
    pub create_date: String,
    pub update_date: String,
    pub folder_size: u64,
    pub last_commit_hash: String,
    pub last_commit_author: String,
    pub last_commit_date: String,
    pub last_commit_name: String,
    pub last_commit_partof: String,
}

/// What one scrape found of one module. `author` and `maintainer` are names
/// separated by commas; `committers` gives each committer once, with the
/// number of commits.
#[derive(Debug)]
pub struct ManifestInfo {
    pub technical_name: String,
    pub version_odoo: u8,
    pub name: String,
    pub version_module: String,
    pub description: String,
    pub author: String,
    pub website: String,
    pub license: String,
    pub category: String,
    pub auto_install: bool,
    pub application: bool,
    pub installable: bool,
    pub maintainer: String,
    pub git_org: String,
    pub git_repo: String,
    pub depends: Vec<String>,
    pub external_depends_python: Vec<String>,
    pub external_depends_bin: Vec<String>,
    pub folder_size: u64,
    pub last_commit_hash: String,
    pub last_commit_author: String,
    pub last_commit_date: String,
    pub last_commit_name: String,
    pub last_commit_partof: String,
    pub committers: Vec<(String, u32)>,
}

#[derive(Debug)]
pub struct ModuleInfo {
    pub technical_name: String,
    pub name: String,
    pub version_odoo: u8,
    pub organization: String,
    pub repository: String,
}

/// The buckets in which one repository holds a module: `versions` lists them
/// with commas between, `src` is the organization, a stroke, the repository.
#[derive(Debug)]
pub struct ModuleGenericInfo {
    pub technical_name: String,
    pub versions: String,
    pub src: String,
}

#[derive(Debug)]
pub struct ModuleCountInfo {
    pub count: u32,
    pub version_odoo: u8,
}

#[derive(Debug)]
pub struct ModuleCountByOrganizationInfo {
    pub count: u32,
    pub version_odoo: u8,
    pub org_name: String,
}

#[derive(Debug)]
pub struct ModuleRankContributorInfo {
    pub count: u32,
    pub version_odoo: u8,
    pub contrib_name: String,
    pub rank: u16,
}

#[derive(Debug)]
pub struct ModuleRankCommitterInfo {
    pub count: u32,
    pub version_odoo: u8,
    pub committer_name: String,
    pub rank: u16,
}

#[derive(Debug)]
pub struct ModuleRepositoryInfo {
    pub technical_name: String,
    pub repository_name: String,
}

impl Model {
    /// A copy of the row.
    pub fn duplicate(&self) -> (r: Model)
        ensures
            r == *self,
    {
        Model {
            id: self.id,
            technical_name: self.technical_name.clone(),
            version_odoo: self.version_odoo,
            name: self.name.clone(),
            version_module: self.version_module.clone(),
            description: self.description.clone(),
            website: self.website.clone(),
            license: self.license.clone(),
            category: self.category.clone(),
            auto_install: self.auto_install,
            application: self.application,
            installable: self.installable,
            gh_repository_id: (self.gh_repository_id.0, self.gh_repository_id.1.clone()),
            create_date: self.create_date.clone(),
            update_date: self.update_date.clone(),
            folder_size: self.folder_size,
            last_commit_hash: self.last_commit_hash.clone(),
            last_commit_author: self.last_commit_author.clone(),
            last_commit_date: self.last_commit_date.clone(),
            last_commit_name: self.last_commit_name.clone(),
            last_commit_partof: self.last_commit_partof.clone(),
        }
    }

    /// Whether this is the module `technical_name` of the bucket
    /// `version_odoo` in the repository `gh_repo_id`.
    pub open spec fn is_keyed(
        &self,
        technical_name: Seq<char>,
        version_odoo: u8,
        gh_repo_id: i64,
    ) -> bool {
        &&& self.technical_name@ == technical_name
        &&& self.version_odoo == version_odoo
        &&& self.gh_repository_id.0 == gh_repo_id
    }
}

impl ManifestInfo {
    /// No committer is given twice.
    pub open spec fn wf(&self) -> bool {
        distinct(module_committer::counted_names(self.committers@))
    }
}

/// Identities lie in `1..=last_id`.
pub open spec fn ids_below(rows: Seq<Model>, last_id: i64) -> bool {
    forall|i: int| 0 <= i < rows.len() ==> 0 < (#[trigger] rows[i]).id <= last_id
}

/// No identity occurs twice, and no technical name twice in one bucket of one
/// repository.
pub open spec fn well_keyed(rows: Seq<Model>) -> bool {
    &&& forall|i: int, j: int|
        0 <= i < j < rows.len() ==> (#[trigger] rows[i]).id != (#[trigger] rows[j]).id
    &&& forall|i: int, j: int|
        0 <= i < j < rows.len() ==> !(#[trigger] rows[i]).is_keyed(
            (#[trigger] rows[j]).technical_name@,
            rows[j].version_odoo,
            rows[j].gh_repository_id.0,
        )
}

/// Every module's repository is in `repositories`, under the name that the
/// module holds of it.
pub open spec fn housed(rows: Seq<Model>, repositories: Seq<gh_repository::Model>) -> bool {
    forall|i: int|
        0 <= i < rows.len() ==> gh_repository::has(
            repositories,
            (#[trigger] rows[i]).gh_repository_id.0,
            rows[i].gh_repository_id.1@,
        )
}

/// Whether a row of `rows` has the identity `id`.
pub open spec fn has_id(rows: Seq<Model>, id: i64) -> bool {
    exists|i: int| 0 <= i < rows.len() && (#[trigger] rows[i]).id == id
}

/// Whether `rows` has the module `technical_name` of the bucket
/// `version_odoo` in the repository `gh_repo_id`.
pub open spec fn has_key(
    rows: Seq<Model>,
    technical_name: Seq<char>,
    version_odoo: u8,
    gh_repo_id: i64,
) -> bool {
    exists|i: int|
        0 <= i < rows.len() && (#[trigger] rows[i]).is_keyed(
            technical_name,
            version_odoo,
            gh_repo_id,
        )
}

/// The rows stay housed after one more row in `repositories`.
pub proof fn lemma_housed_after_push(rows: Seq<Model>, repositories: Seq<gh_repository::Model>, r: gh_repository::Model)
    requires
        housed(rows, repositories),
    ensures
        housed(rows, repositories.push(r)),
{
    assert forall|i: int| 0 <= i < rows.len() implies gh_repository::has(
        repositories.push(r),
        (#[trigger] rows[i]).gh_repository_id.0,
        rows[i].gh_repository_id.1@,
    ) by {
        gh_repository::lemma_has_after_push(repositories, r, rows[i].gh_repository_id.0, rows[i].gh_repository_id.1@);
    }
}

/// The module with the identity `id`.
pub fn get_by_id(store: &Store, id: &i64) -> (r: Option<Model>)
    ensures
        r is Some <==> has_id(store.modules@, *id),
        r matches Some(m) ==> store.modules@.contains(m) && m.id == *id,
{
    let mut i: usize = 0;
    while i < store.modules.len()
        invariant
            i <= store.modules.len(),
            forall|k: int| 0 <= k < i ==> (#[trigger] store.modules@[k]).id != *id,
        decreases store.modules.len() - i,
    {
        if store.modules[i].id == *id {
            return Some(store.modules[i].duplicate());
        }
        i += 1;
    }
    None
}

/// Where the module with the identity `id` stands in the table.
pub fn position_of_id(store: &Store, id: &i64) -> (r: Option<usize>)
    ensures
        r is Some <==> has_id(store.modules@, *id),
        r matches Some(i) ==> i < store.modules@.len() && store.modules@[i as int].id == *id,
{
    let mut i: usize = 0;
    while i < store.modules.len()
        invariant
            i <= store.modules.len(),
            forall|k: int| 0 <= k < i ==> (#[trigger] store.modules@[k]).id != *id,
        decreases store.modules.len() - i,
    {
        if store.modules[i].id == *id {
            return Some(i);
        }
        i += 1;
    }
    None
}

/// Where the module `technical_name` of the bucket `version_odoo` in the
/// repository `gh_repo_id` stands in the table.
pub fn position(store: &Store, technical_name: &str, version_odoo: &u8, gh_repo_id: &i64) -> (r:
    Option<usize>)
    ensures
        r is Some <==> has_key(store.modules@, technical_name@, *version_odoo, *gh_repo_id),
        r matches Some(i) ==> i < store.modules@.len() && store.modules@[i as int].is_keyed(
            technical_name@,
            *version_odoo,
            *gh_repo_id,
        ),
{
    let mut i: usize = 0;
    while i < store.modules.len()
        invariant
            i <= store.modules.len(),
            forall|k: int|
                0 <= k < i ==> !(#[trigger] store.modules@[k]).is_keyed(
                    technical_name@,
                    *version_odoo,
                    *gh_repo_id,
                ),
        decreases store.modules.len() - i,
    {
        if store.modules[i].version_odoo == *version_odoo && store.modules[i].gh_repository_id.0
            == *gh_repo_id && same_text(store.modules[i].technical_name.as_str(), technical_name) {
            return Some(i);
        }
        i += 1;
    }
    None
}

/// The module `technical_name` of the bucket `version_odoo` in the
/// repository `gh_repo_id`.
pub fn get_by_technical_name(
    store: &Store,
    technical_name: &str,
    version_odoo: &u8,
    gh_repo_id: &i64,
) -> (r: Option<Model>)
    ensures
        r is Some <==> has_key(store.modules@, technical_name@, *version_odoo, *gh_repo_id),
        r matches Some(m) ==> store.modules@.contains(m) && m.is_keyed(
            technical_name@,
            *version_odoo,
            *gh_repo_id,
        ),
{
    match position(store, technical_name, version_odoo, gh_repo_id) {
        Some(i) => Some(store.modules[i].duplicate()),
        None => None,
    }
}

/// The organization and the repository that `module_info` names, each
/// entered first where the catalog has none such.
fn home(store: &mut Store, module_info: &ManifestInfo, now: &str) -> (r: gh_repository::Model)
    requires
        old(store).wf(),
        old(store).last_id < i64::MAX - 1,
    ensures
        final(store).wf(),
        final(store).repositories@.contains(r),
        r.name@ == module_info.git_repo@,
        r.gh_organization_id.1@ == module_info.git_org@,
        extends(final(store).system_events@, old(store).system_events@),
        dated(final(store).system_events@, old(store).system_events@, now@),
        said(final(store).system_events@, old(store).system_events@) == said_by_home(
            *old(store),
            *module_info,
        ),
        gh_repository::has_named(
            old(store).repositories@,
            module_info.git_repo@,
            module_info.git_org@,
        ) ==> *final(store) == *old(store),
        !gh_repository::has_named(
            old(store).repositories@,
            module_info.git_repo@,
            module_info.git_org@,
        ) ==> final(store).repositories@ == old(store).repositories@.push(r),
        old(store).last_id <= final(store).last_id <= old(store).last_id + 2,
        homed(*old(store), *final(store), *module_info, r.id),
        *final(store) == (Store {
            organizations: final(store).organizations,
            repositories: final(store).repositories,
            system_events: final(store).system_events,
            last_id: final(store).last_id,
            ..*old(store)
        }),
{
    let org = gh_organization::add(store, module_info.git_org.as_str(), now);
    let ghost mid = *store;
    proof {
        let k = choose|k: int| 0 <= k < mid.organizations@.len() && mid.organizations@[k] == org;
        gh_organization::lemma_has_row(mid.organizations@, k);
        // a repository holds the organization's name where it holds its identity
        assert forall|i: int| 0 <= i < mid.repositories@.len() implies ((
        #[trigger] mid.repositories@[i]).gh_organization_id.0 == org.id
            <==> mid.repositories@[i].gh_organization_id.1@ == org.name@) by {
            let x = choose|x: int|
                0 <= x < mid.organizations@.len() && (#[trigger] mid.organizations@[x]).id
                    == mid.repositories@[i].gh_organization_id.0 && mid.organizations@[x].name@
                    == mid.repositories@[i].gh_organization_id.1@;
            if x < k {
                assert(mid.organizations@[x].id != mid.organizations@[k].id);
                assert(mid.organizations@[x].name@ != mid.organizations@[k].name@);
            } else if k < x {
                assert(mid.organizations@[k].id != mid.organizations@[x].id);
                assert(mid.organizations@[k].name@ != mid.organizations@[x].name@);
            }
        }
        if gh_repository::has_named(
            old(store).repositories@,
            module_info.git_repo@,
            module_info.git_org@,
        ) {
            let i = choose|i: int|
                0 <= i < old(store).repositories@.len() && (#[trigger] old(
                    store,
                ).repositories@[i]).name@ == module_info.git_repo@ && old(
                    store,
                ).repositories@[i].gh_organization_id.1@ == module_info.git_org@;
            assert(gh_organization::has(
                old(store).organizations@,
                old(store).repositories@[i].gh_organization_id.0,
                old(store).repositories@[i].gh_organization_id.1@,
            ));
            assert(gh_organization::has_name(old(store).organizations@, module_info.git_org@));
        }
    }
    let repo = gh_repository::add(store, &org.id, module_info.git_repo.as_str(), now);
    proof {
        lemma_said_in_turn(old(store).system_events@, mid.system_events@, store.system_events@);
        let j = choose|j: int| 0 <= j < store.repositories@.len() && store.repositories@[j] == repo;
        assert(gh_organization::has(
            store.organizations@,
            store.repositories@[j].gh_organization_id.0,
            store.repositories@[j].gh_organization_id.1@,
        ));
        let x = choose|x: int|
            0 <= x < store.organizations@.len() && (#[trigger] store.organizations@[x]).id
                == repo.gh_organization_id.0 && store.organizations@[x].name@
                == repo.gh_organization_id.1@;
        let k = choose|k: int|
            0 <= k < store.organizations@.len() && store.organizations@[k] == org;
        if x < k {
            assert(store.organizations@[x].id != store.organizations@[k].id);
        } else if k < x {
            assert(store.organizations@[k].id != store.organizations@[x].id);
        }
        assert(gh_repository::has_name(mid.repositories@, org.id, module_info.git_repo@)
            <==> gh_repository::has_named(
            mid.repositories@,
            module_info.git_repo@,
            module_info.git_org@,
        ));
        if !gh_organization::has_name(old(store).organizations@, module_info.git_org@) {
            assert(!gh_repository::has_named(
                old(store).repositories@,
                module_info.git_repo@,
                module_info.git_org@,
            ));
        }
        assert(said(store.system_events@, old(store).system_events@) =~= said_by_home(
            *old(store),
            *module_info,
        ));
        assert(store.organizations@ == mid.organizations@);
        if !gh_organization::has_name(old(store).organizations@, module_info.git_org@) {
            assert(mid.organizations@ == old(store).organizations@.push(org));
            assert(mid.organizations@.drop_last() =~= old(store).organizations@);
        } else {
            assert(mid == *old(store));
        }
        if !gh_repository::has_named(
            old(store).repositories@,
            module_info.git_repo@,
            module_info.git_org@,
        ) {
            assert(store.repositories@ == old(store).repositories@.push(repo));
            assert(store.repositories@.drop_last() =~= old(store).repositories@);
        }
    }
    repo
}

/// What is said where the organization and the repository of `module_info`
/// are looked up: each is reported where the catalog did not have it.
pub open spec fn said_by_home(store: Store, module_info: ManifestInfo) -> Seq<Signature> {
    (if gh_organization::has_name(store.organizations@, module_info.git_org@) {
        Seq::<Signature>::empty()
    } else {
        one_each(EventKind::NewOrganization, seq![module_info.git_org@], ""@, 0)
    }) + (if gh_repository::has_named(
        store.repositories@,
        module_info.git_repo@,
        module_info.git_org@,
    ) {
        Seq::<Signature>::empty()
    } else {
        one_each(EventKind::NewRepository, seq![module_info.git_repo@], module_info.git_org@, 0)
    })
}

/// `true` or `false` as text.
pub open spec fn bool_text(b: bool) -> Seq<char> {
    if b {
        "true"@
    } else {
        "false"@
    }
}

fn bool_string(b: bool) -> (r: String)
    ensures
        r@ == bool_text(b),
{
    if b {
        "true".to_owned()
    } else {
        "false".to_owned()
    }
}

/// One change where the field differs, none where it does not.
pub open spec fn change_when(
    differs: bool,
    label: Seq<char>,
    had: Seq<char>,
    found: Seq<char>,
) -> Seq<(Seq<char>, Seq<char>, Seq<char>)> {
    if differs {
        seq![(label, had, found)]
    } else {
        Seq::<(Seq<char>, Seq<char>, Seq<char>)>::empty()
    }
}

/// The fields in which the scrape `module_info` differs from the row `m`,
/// each with its label, what the row holds and what the scrape found.
pub open spec fn changes_between(m: Model, module_info: ManifestInfo) -> Seq<
    (Seq<char>, Seq<char>, Seq<char>),
> {
    change_when(m.name@ != module_info.name@, "Name"@, m.name@, module_info.name@) + change_when(
        m.version_module@ != module_info.version_module@,
        "Version Module"@,
        m.version_module@,
        module_info.version_module@,
    ) + change_when(
        m.description@ != module_info.description@,
        "Description"@,
        m.description@,
        module_info.description@,
    ) + change_when(
        m.website@ != module_info.website@,
        "Website"@,
        m.website@,
        module_info.website@,
    ) + change_when(
        m.license@ != module_info.license@,
        "License"@,
        m.license@,
        module_info.license@,
    ) + change_when(
        m.category@ != module_info.category@,
        "Category"@,
        m.category@,
        module_info.category@,
    ) + change_when(
        m.auto_install != module_info.auto_install,
        "Auto Install"@,
        bool_text(m.auto_install),
        bool_text(module_info.auto_install),
    ) + change_when(
        m.installable != module_info.installable,
        "Installable"@,
        bool_text(m.installable),
        bool_text(module_info.installable),
    ) + change_when(
        m.application != module_info.application,
        "Application"@,
        bool_text(m.application),
        bool_text(module_info.application),
    ) + change_when(
        m.folder_size != module_info.folder_size,
        "Folder Size"@,
        decimal_text(m.folder_size as nat),
        decimal_text(module_info.folder_size as nat),
    )
}

/// Whether the row `m` holds what the scrape `module_info` found, field by
/// field.
pub open spec fn described_by(m: Model, module_info: ManifestInfo) -> bool {
    &&& m.name@ == module_info.name@
    &&& m.version_module@ == module_info.version_module@
    &&& m.description@ == module_info.description@
    &&& m.website@ == module_info.website@
    &&& m.license@ == module_info.license@
    &&& m.category@ == module_info.category@
    &&& m.auto_install == module_info.auto_install
    &&& m.installable == module_info.installable
    &&& m.application == module_info.application
    &&& m.folder_size == module_info.folder_size
}

/// A row holds what a scrape found where no field differs.
pub proof fn lemma_no_changes(m: Model, module_info: ManifestInfo)
    ensures
        changes_between(m, module_info).len() == 0 <==> described_by(m, module_info),
{
}

fn note(
    changes: &mut Vec<(String, String, String)>,
    differs: bool,
    label: &str,
    had: &str,
    found: &str,
)
    ensures
        changes_of(final(changes)@) == changes_of(old(changes)@) + change_when(
            differs,
            label@,
            had@,
            found@,
        ),
{
    if differs {
        changes.push((label.to_owned(), had.to_owned(), found.to_owned()));
    }
    assert(changes_of(final(changes)@) =~= changes_of(old(changes)@) + change_when(
        differs,
        label@,
        had@,
        found@,
    ));
}

/// The fields in which the scrape `module_info` differs from the row `m`.
pub fn changes(m: &Model, module_info: &ManifestInfo) -> (r: Vec<(String, String, String)>)
    ensures
        changes_of(r@) == changes_between(*m, *module_info),
{
    let mut r: Vec<(String, String, String)> = Vec::new();
    assert(changes_of(r@) =~= Seq::<(Seq<char>, Seq<char>, Seq<char>)>::empty());
    note(
        &mut r,
        !same_text(m.name.as_str(), module_info.name.as_str()),
        "Name",
        m.name.as_str(),
        module_info.name.as_str(),
    );
    note(
        &mut r,
        !same_text(m.version_module.as_str(), module_info.version_module.as_str()),
        "Version Module",
        m.version_module.as_str(),
        module_info.version_module.as_str(),
    );
    note(
        &mut r,
        !same_text(m.description.as_str(), module_info.description.as_str()),
        "Description",
        m.description.as_str(),
        module_info.description.as_str(),
    );
    note(
        &mut r,
        !same_text(m.website.as_str(), module_info.website.as_str()),
        "Website",
        m.website.as_str(),
        module_info.website.as_str(),
    );
    note(
        &mut r,
        !same_text(m.license.as_str(), module_info.license.as_str()),
        "License",
        m.license.as_str(),
        module_info.license.as_str(),
    );
    note(
        &mut r,
        !same_text(m.category.as_str(), module_info.category.as_str()),
        "Category",
        m.category.as_str(),
        module_info.category.as_str(),
    );
    let old_auto = bool_string(m.auto_install);
    let new_auto = bool_string(module_info.auto_install);
    note(
        &mut r,
        m.auto_install != module_info.auto_install,
        "Auto Install",
        old_auto.as_str(),
        new_auto.as_str(),
    );
    let old_installable = bool_string(m.installable);
    let new_installable = bool_string(module_info.installable);
    note(
        &mut r,
        m.installable != module_info.installable,
        "Installable",
        old_installable.as_str(),
        new_installable.as_str(),
    );
    let old_application = bool_string(m.application);
    let new_application = bool_string(module_info.application);
    note(
        &mut r,
        m.application != module_info.application,
        "Application",
        old_application.as_str(),
        new_application.as_str(),
    );
    let old_size = decimal_string(m.folder_size);
    let new_size = decimal_string(module_info.folder_size);
    note(
        &mut r,
        m.folder_size != module_info.folder_size,
        "Folder Size",
        old_size.as_str(),
        new_size.as_str(),
    );
    assert(changes_of(r@) =~= changes_between(*m, *module_info));
    r
}

/// Whether the row `m` is what the scrape `module_info` makes of a module
/// that the catalog did not have: the scraped fields, and `now` as both
/// dates.
pub open spec fn entered(m: Model, module_info: ManifestInfo, now: Seq<char>) -> bool {
    &&& m.technical_name@ == module_info.technical_name@
    &&& m.version_odoo == module_info.version_odoo
    &&& described_by(m, module_info)
    &&& m.create_date@ == now
    &&& m.update_date@ == now
    &&& m.last_commit_hash@ == module_info.last_commit_hash@
    &&& m.last_commit_author@ == module_info.last_commit_author@
    &&& m.last_commit_date@ == module_info.last_commit_date@
    &&& m.last_commit_name@ == module_info.last_commit_name@
    &&& m.last_commit_partof@ == module_info.last_commit_partof@
}

/// Whether the row `m` is what the scrape `module_info` makes of the row
/// `o`: `o` itself where no field differs, else the scraped fields, `now` as
/// the date of the update, and all else as in `o`.
pub open spec fn refreshed(m: Model, o: Model, module_info: ManifestInfo, now: Seq<char>) -> bool {
    if described_by(o, module_info) {
        m == o
    } else {
        &&& m.id == o.id
        &&& m.technical_name == o.technical_name
        &&& m.version_odoo == o.version_odoo
        &&& m.gh_repository_id == o.gh_repository_id
        &&& described_by(m, module_info)
        &&& m.create_date == o.create_date
        &&& m.update_date@ == now
        &&& m.last_commit_hash == o.last_commit_hash
        &&& m.last_commit_author == o.last_commit_author
        &&& m.last_commit_date == o.last_commit_date
        &&& m.last_commit_name == o.last_commit_name
        &&& m.last_commit_partof == o.last_commit_partof
    }
}

/// The rows stay well keyed, below the new row's identity and housed after
/// a row with a new identity and a new key.
pub proof fn lemma_after_push(
    rows: Seq<Model>,
    r: Model,
    last_id: i64,
    repositories: Seq<gh_repository::Model>,
)
    requires
        well_keyed(rows),
        ids_below(rows, last_id),
        housed(rows, repositories),
        last_id >= 0,
        r.id == last_id + 1,
        !has_key(rows, r.technical_name@, r.version_odoo, r.gh_repository_id.0),
        gh_repository::has(repositories, r.gh_repository_id.0, r.gh_repository_id.1@),
    ensures
        well_keyed(rows.push(r)),
        ids_below(rows.push(r), r.id),
        housed(rows.push(r), repositories),
{
    let after = rows.push(r);
    assert forall|i: int, j: int| 0 <= i < j < after.len() implies (#[trigger] after[i]).id != (
    #[trigger] after[j]).id && !after[i].is_keyed(
        after[j].technical_name@,
        after[j].version_odoo,
        after[j].gh_repository_id.0,
    ) by {
        assert(after[i] == rows[i]);
        if j < rows.len() {
            assert(after[j] == rows[j]);
        }
    }
    assert forall|i: int| 0 <= i < after.len() implies gh_repository::has(
        repositories,
        (#[trigger] after[i]).gh_repository_id.0,
        after[i].gh_repository_id.1@,
    ) by {
        if i < rows.len() {
            assert(after[i] == rows[i]);
        }
    }
    assert forall|i: int| 0 <= i < after.len() implies 0 < (#[trigger] after[i]).id <= r.id by {
        if i < rows.len() {
            assert(after[i] == rows[i]);
        }
    }
}

/// The rows stay well keyed, below `last_id` and housed where the row at `i`
/// gives way to one with its identity, its key and its repository.
pub proof fn lemma_after_update(
    rows: Seq<Model>,
    i: int,
    r: Model,
    last_id: i64,
    repositories: Seq<gh_repository::Model>,
)
    requires
        0 <= i < rows.len(),
        well_keyed(rows),
        ids_below(rows, last_id),
        housed(rows, repositories),
        r.id == rows[i].id,
        r.technical_name@ == rows[i].technical_name@,
        r.version_odoo == rows[i].version_odoo,
        r.gh_repository_id.0 == rows[i].gh_repository_id.0,
        r.gh_repository_id.1@ == rows[i].gh_repository_id.1@,
    ensures
        well_keyed(rows.update(i, r)),
        ids_below(rows.update(i, r), last_id),
        housed(rows.update(i, r), repositories),
        forall|x: Model|
            rows.update(i, r).contains(x) <==> x == r || (rows.contains(x) && x.id != r.id),
{
    let after = rows.update(i, r);
    assert forall|k: int| 0 <= k < after.len() implies (#[trigger] after[k]).id == rows[k].id
        && after[k].technical_name@ == rows[k].technical_name@ && after[k].version_odoo
        == rows[k].version_odoo && after[k].gh_repository_id.0 == rows[k].gh_repository_id.0
        && after[k].gh_repository_id.1@ == rows[k].gh_repository_id.1@ by {}
    assert forall|a: int, b: int| 0 <= a < b < after.len() implies (#[trigger] after[a]).id != (
    #[trigger] after[b]).id && !after[a].is_keyed(
        after[b].technical_name@,
        after[b].version_odoo,
        after[b].gh_repository_id.0,
    ) by {
        assert(rows[a].id != rows[b].id);
        assert(!rows[a].is_keyed(
            rows[b].technical_name@,
            rows[b].version_odoo,
            rows[b].gh_repository_id.0,
        ));
    }
    assert forall|k: int| 0 <= k < after.len() implies gh_repository::has(
        repositories,
        (#[trigger] after[k]).gh_repository_id.0,
        after[k].gh_repository_id.1@,
    ) by {
        assert(gh_repository::has(
            repositories,
            rows[k].gh_repository_id.0,
            rows[k].gh_repository_id.1@,
        ));
    }
    assert forall|x: Model| after.contains(x) <==> x == r || (rows.contains(x) && x.id
        != r.id) by {
        assert(after[i] == r);
        if after.contains(x) {
            let k = choose|k: int| 0 <= k < after.len() && after[k] == x;
            if k != i {
                assert(rows[k] == x);
                if k < i {
                    assert(rows[k].id != rows[i].id);
                } else {
                    assert(rows[i].id != rows[k].id);
                }
            }
        }
        if rows.contains(x) && x.id != r.id {
            let k = choose|k: int| 0 <= k < rows.len() && rows[k] == x;
            assert(after[k] == x);
        }
    }
}

/// How many identities a scrape may draw: one each for the organization,
/// the repository and the module, and two for each author, maintainer and
/// committer.
pub open spec fn ids_needed(module_info: ManifestInfo) -> nat {
    3 + 2 * (name_list(module_info.author@).len() + name_list(module_info.maintainer@).len()
        + module_info.committers@.len())
}

/// How many identities the scrape `module_info` may draw.
pub fn ids_for(module_info: &ManifestInfo) -> (r: i128)
    ensures
        r == ids_needed(*module_info),
        r < 0x8_0000_0000_0000_0000,
{
    let authors = names_in(module_info.author.as_str());
    let maintainers = names_in(module_info.maintainer.as_str());
    assert(texts(authors@).len() == authors@.len());
    assert(texts(maintainers@).len() == maintainers@.len());
    3 + 2 * (authors.len() as i128 + maintainers.len() as i128
        + module_info.committers.len() as i128)
}

/// What is said of the people of a module where they are brought in line
/// with the scrape `module_info`. For a module that the catalog had, the
/// committers come first; for a new one, they come last.
pub open spec fn said_of_people(
    store: Store,
    module_info: ManifestInfo,
    module_id: i64,
    existed: bool,
) -> Seq<Signature> {
    let authors = module_author::said_by_sync(
        module_author::names_of_module(store.module_authors@, module_id),
        name_list(module_info.author@),
        module_id,
    );
    let maintainers = module_maintainer::said_by_sync(
        module_maintainer::names_of_module(store.module_maintainers@, module_id),
        name_list(module_info.maintainer@),
        module_id,
    );
    let committers = one_each(
        EventKind::NewCommitter,
        minus(
            module_committer::counted_names(module_info.committers@),
            module_committer::names_of_module(store.module_committers@, module_id),
        ),
        ""@,
        module_id,
    );
    if existed {
        committers + authors + maintainers
    } else {
        authors + maintainers + committers
    }
}

/// Whether the people of the module `module_id` are those of the scrape
/// `module_info`: its authors and maintainers are the names that the scrape
/// lists, and each of its committers has the number of commits that the
/// scrape gives.
pub open spec fn people_match(store: Store, module_info: ManifestInfo, module_id: i64) -> bool {
    &&& forall|n: Seq<char>|
        module_author::has_name(store.module_authors@, module_id, n) <==> name_list(
            module_info.author@,
        ).contains(n)
    &&& forall|n: Seq<char>|
        module_maintainer::has_name(store.module_maintainers@, module_id, n) <==> name_list(
            module_info.maintainer@,
        ).contains(n)
    &&& forall|i: int|
        0 <= i < module_info.committers@.len() ==> module_committer::has_count(
            store.module_committers@,
            module_id,
            (#[trigger] module_info.committers@[i]).0@,
            module_info.committers@[i].1,
        )
}

/// Whether the people of every module but `module_id` are in `after` what
/// they were in `before`.
pub open spec fn others_keep_people(before: Store, after: Store, module_id: i64) -> bool {
    &&& forall|m2: i64, n: Seq<char>|
        m2 != module_id ==> (#[trigger] module_author::has_name(after.module_authors@, m2, n)
            <==> module_author::has_name(before.module_authors@, m2, n))
    &&& forall|m2: i64, n: Seq<char>|
        m2 != module_id ==> (#[trigger] module_maintainer::has_name(
            after.module_maintainers@,
            m2,
            n,
        ) <==> module_maintainer::has_name(before.module_maintainers@, m2, n))
    &&& forall|m2: i64, n: Seq<char>, c: u32|
        m2 != module_id ==> (#[trigger] module_committer::has_count(
            after.module_committers@,
            m2,
            n,
            c,
        ) <==> module_committer::has_count(before.module_committers@, m2, n, c))
}

/// Brings the people of the module `module_id` in line with the scrape
/// `module_info`.
fn sync_people(
    store: &mut Store,
    module_info: &ManifestInfo,
    module_id: i64,
    existed: bool,
    now: &str,
)
    requires
        old(store).wf(),
        module_info.wf(),
        old(store).last_id + ids_needed(*module_info) - 3 <= i64::MAX,
        has_id(old(store).modules@, module_id),
    ensures
        final(store).wf(),
        people_match(*final(store), *module_info, module_id),
        others_keep_people(*old(store), *final(store), module_id),
        extends(final(store).system_events@, old(store).system_events@),
        dated(final(store).system_events@, old(store).system_events@, now@),
        said(final(store).system_events@, old(store).system_events@) == said_of_people(
            *old(store),
            *module_info,
            module_id,
            existed,
        ),
        people_match(*old(store), *module_info, module_id) ==> *final(store) == *old(store),
        old(store).last_id <= final(store).last_id <= old(store).last_id + ids_needed(
            *module_info,
        ) - 3,
        *final(store) == (Store {
            authors: final(store).authors,
            maintainers: final(store).maintainers,
            committers: final(store).committers,
            module_authors: final(store).module_authors,
            module_maintainers: final(store).module_maintainers,
            module_committers: final(store).module_committers,
            system_events: final(store).system_events,
            last_id: final(store).last_id,
            ..*old(store)
        }),
{
    let authors = names_in(module_info.author.as_str());
    let maintainers = names_in(module_info.maintainer.as_str());
    let ghost s0 = *store;
    proof {
        lemma_said_nothing(store.system_events@);
    }
    if existed {
        module_committer::sync(store, &module_id, &module_info.committers, now);
    }
    let ghost s1 = *store;
    module_author::sync(store, &module_id, &authors, now);
    let ghost s2 = *store;
    module_maintainer::sync(store, &module_id, &maintainers, now);
    let ghost s3 = *store;
    if !existed {
        module_committer::sync(store, &module_id, &module_info.committers, now);
    }
    proof {
        if existed {
            lemma_said_nothing(s3.system_events@);
        }
        lemma_said_in_turn(s0.system_events@, s1.system_events@, s2.system_events@);
        lemma_said_in_turn(s0.system_events@, s2.system_events@, s3.system_events@);
        lemma_said_in_turn(s0.system_events@, s3.system_events@, store.system_events@);
        assert(said(store.system_events@, s0.system_events@) =~= said_of_people(
            s0,
            *module_info,
            module_id,
            existed,
        ));
        assert forall|i: int| 0 <= i < module_info.committers@.len() implies module_committer::has_count(
            store.module_committers@,
            module_id,
            (#[trigger] module_info.committers@[i]).0@,
            module_info.committers@[i].1,
        ) by {
            let names = module_committer::counted_names(module_info.committers@);
            let counts = module_committer::counted(module_info.committers@);
            assert(names[i] == module_info.committers@[i].0@);
            assert(counts[i] == (module_info.committers@[i].0@, module_info.committers@[i].1));
        }
        if people_match(s0, *module_info, module_id) {
            people_in_line(s0, *module_info, module_id);
        }
    }
}

/// Nothing is said of the people of a module where they are those of the
/// scrape.
pub proof fn people_in_line(store: Store, module_info: ManifestInfo, module_id: i64)
    requires
        people_match(store, module_info, module_id),
    ensures
        module_author::said_by_sync(
            module_author::names_of_module(store.module_authors@, module_id),
            name_list(module_info.author@),
            module_id,
        ).len() == 0,
        module_maintainer::said_by_sync(
            module_maintainer::names_of_module(store.module_maintainers@, module_id),
            name_list(module_info.maintainer@),
            module_id,
        ).len() == 0,
{
    let had = module_author::names_of_module(store.module_authors@, module_id);
    let wanted = name_list(module_info.author@);
    assert forall|i: int| 0 <= i < had.len() implies wanted.contains(#[trigger] had[i]) by {
        module_author::lemma_names_of_module(store.module_authors@, module_id, had[i]);
    }
    assert forall|i: int| 0 <= i < wanted.len() implies had.contains(#[trigger] wanted[i]) by {
        module_author::lemma_names_of_module(store.module_authors@, module_id, wanted[i]);
    }
    crate::names::lemma_minus_of_subset(had, wanted);
    crate::names::lemma_minus_of_subset(wanted, had);
    let had2 = module_maintainer::names_of_module(store.module_maintainers@, module_id);
    let wanted2 = name_list(module_info.maintainer@);
    assert forall|i: int| 0 <= i < had2.len() implies wanted2.contains(#[trigger] had2[i]) by {
        module_maintainer::lemma_names_of_module(store.module_maintainers@, module_id, had2[i]);
    }
    assert forall|i: int| 0 <= i < wanted2.len() implies had2.contains(#[trigger] wanted2[i]) by {
        module_maintainer::lemma_names_of_module(
            store.module_maintainers@,
            module_id,
            wanted2[i],
        );
    }
    crate::names::lemma_minus_of_subset(had2, wanted2);
    crate::names::lemma_minus_of_subset(wanted2, had2);
}

/// The row of `rows` with the key `technical_name`, `version_odoo`,
/// `gh_repo_id`.
pub open spec fn row_keyed(
    rows: Seq<Model>,
    technical_name: Seq<char>,
    version_odoo: u8,
    gh_repo_id: i64,
) -> Model {
    rows[choose|i: int|
        0 <= i < rows.len() && (#[trigger] rows[i]).is_keyed(
            technical_name,
            version_odoo,
            gh_repo_id,
        )]
}

/// In well-keyed rows the row with a key is the only one with that key.
pub proof fn lemma_row_keyed(rows: Seq<Model>, i: int)
    requires
        well_keyed(rows),
        0 <= i < rows.len(),
    ensures
        row_keyed(
            rows,
            rows[i].technical_name@,
            rows[i].version_odoo,
            rows[i].gh_repository_id.0,
        ) == rows[i],
{
    let k = choose|k: int|
        0 <= k < rows.len() && (#[trigger] rows[k]).is_keyed(
            rows[i].technical_name@,
            rows[i].version_odoo,
            rows[i].gh_repository_id.0,
        );
    if k < i {
        assert(!rows[k].is_keyed(
            rows[i].technical_name@,
            rows[i].version_odoo,
            rows[i].gh_repository_id.0,
        ));
    } else if i < k {
        assert(!rows[i].is_keyed(
            rows[k].technical_name@,
            rows[k].version_odoo,
            rows[k].gh_repository_id.0,
        ));
    }
}

/// Whether the catalog holds the module of the scrape `module_info` as the
/// row `m`, with the fields and the people that the scrape found.
pub open spec fn synced(store: Store, module_info: ManifestInfo, m: Model) -> bool {
    &&& store.modules@.contains(m)
    &&& m.technical_name@ == module_info.technical_name@
    &&& m.version_odoo == module_info.version_odoo
    &&& gh_repository::has_in(
        store.repositories@,
        m.gh_repository_id.0,
        module_info.git_repo@,
        module_info.git_org@,
    )
    &&& described_by(m, module_info)
    &&& people_match(store, module_info, m.id)
}

/// Whether the catalog holds the module of the scrape `module_info` with the
/// fields and the people that the scrape found.
pub open spec fn in_sync(store: Store, module_info: ManifestInfo) -> bool {
    exists|m: Model| synced(store, module_info, m)
}

/// What is said where the scrape `module_info` is taken in and ends as the
/// row `m`: the organization and the repository where they are new, then the
/// people, then the module itself where it is new or a field of it differed.
pub open spec fn said_by_add(store: Store, module_info: ManifestInfo, m: Model) -> Seq<Signature> {
    let existed = has_key(
        store.modules@,
        module_info.technical_name@,
        module_info.version_odoo,
        m.gh_repository_id.0,
    );
    let had = row_keyed(
        store.modules@,
        module_info.technical_name@,
        module_info.version_odoo,
        m.gh_repository_id.0,
    );
    said_by_home(store, module_info) + said_of_people(store, module_info, m.id, existed) + (
    if !existed {
        one_each(EventKind::NewModule, seq![module_info.technical_name@], ""@, m.id)
    } else if !described_by(had, module_info) {
        one_each(EventKind::UpdatedModule, seq![module_info.technical_name@], ""@, m.id)
    } else {
        Seq::<Signature>::empty()
    })
}

/// Whether the organizations and the repositories of `after` are those of
/// `before` with the home of the scrape `module_info`: as they were where
/// `before` had the organization, or the repository; else with the one
/// that was lacking behind the others, the repository under the identity
/// `repo_id`.
pub open spec fn homed(before: Store, after: Store, module_info: ManifestInfo, repo_id: i64) -> bool {
    &&& if gh_organization::has_name(before.organizations@, module_info.git_org@) {
        after.organizations@ == before.organizations@
    } else {
        &&& after.organizations@.len() == before.organizations@.len() + 1
        &&& after.organizations@.drop_last() == before.organizations@
        &&& after.organizations@.last().name@ == module_info.git_org@
    }
    &&& if gh_repository::has_named(
        before.repositories@,
        module_info.git_repo@,
        module_info.git_org@,
    ) {
        after.repositories@ == before.repositories@
    } else {
        &&& after.repositories@.len() == before.repositories@.len() + 1
        &&& after.repositories@.drop_last() == before.repositories@
        &&& after.repositories@.last().id == repo_id
        &&& after.repositories@.last().name@ == module_info.git_repo@
        &&& after.repositories@.last().gh_organization_id.1@ == module_info.git_org@
    }
}

/// Whether the row `o` of the catalog is the module of the scrape
/// `module_info`: it has its technical name and its bucket, and lives in
/// the repository of that name under the organization of that name.
pub open spec fn is_stored_as(store: Store, module_info: ManifestInfo, o: Model) -> bool {
    &&& store.modules@.contains(o)
    &&& o.technical_name@ == module_info.technical_name@
    &&& o.version_odoo == module_info.version_odoo
    &&& gh_repository::has_in(
        store.repositories@,
        o.gh_repository_id.0,
        module_info.git_repo@,
        module_info.git_org@,
    )
}

/// In a well-formed catalog two repositories that hold the same name and
/// the same name of their organization are one.
pub proof fn lemma_one_repository(
    store: Store,
    a: gh_repository::Model,
    b: gh_repository::Model,
)
    requires
        store.wf(),
        store.repositories@.contains(a),
        store.repositories@.contains(b),
        a.name@ == b.name@,
        a.gh_organization_id.1@ == b.gh_organization_id.1@,
    ensures
        a == b,
{
    let repos = store.repositories@;
    let orgs = store.organizations@;
    let i = choose|i: int| 0 <= i < repos.len() && repos[i] == a;
    let j = choose|j: int| 0 <= j < repos.len() && repos[j] == b;
    assert(gh_organization::has(orgs, repos[i].gh_organization_id.0, repos[i].gh_organization_id.1@));
    assert(gh_organization::has(orgs, repos[j].gh_organization_id.0, repos[j].gh_organization_id.1@));
    let x = choose|x: int|
        0 <= x < orgs.len() && (#[trigger] orgs[x]).id == a.gh_organization_id.0 && orgs[x].name@
            == a.gh_organization_id.1@;
    let y = choose|y: int|
        0 <= y < orgs.len() && (#[trigger] orgs[y]).id == b.gh_organization_id.0 && orgs[y].name@
            == b.gh_organization_id.1@;
    if x < y {
        assert(orgs[x].name@ != orgs[y].name@);
    } else if y < x {
        assert(orgs[y].name@ != orgs[x].name@);
    }
    if i < j {
        assert(!(repos[i].name@ == repos[j].name@ && repos[i].gh_organization_id.0
            == repos[j].gh_organization_id.0));
    } else if j < i {
        assert(!(repos[j].name@ == repos[i].name@ && repos[j].gh_organization_id.0
            == repos[i].gh_organization_id.0));
    }
}

/// In a well-formed catalog one row at most holds the module of a scrape.
pub proof fn lemma_one_synced(store: Store, module_info: ManifestInfo, a: Model, b: Model)
    requires
        store.wf(),
        synced(store, module_info, a),
        synced(store, module_info, b),
    ensures
        a == b,
{
    let repos = store.repositories@;
    let i = choose|i: int|
        0 <= i < repos.len() && (#[trigger] repos[i]).id == a.gh_repository_id.0 && repos[i].name@
            == module_info.git_repo@ && repos[i].gh_organization_id.1@ == module_info.git_org@;
    let j = choose|j: int|
        0 <= j < repos.len() && (#[trigger] repos[j]).id == b.gh_repository_id.0 && repos[j].name@
            == module_info.git_repo@ && repos[j].gh_organization_id.1@ == module_info.git_org@;
    assert(repos.contains(repos[i]));
    assert(repos.contains(repos[j]));
    lemma_one_repository(store, repos[i], repos[j]);
    let x = choose|x: int| 0 <= x < store.modules@.len() && store.modules@[x] == a;
    let y = choose|y: int| 0 <= y < store.modules@.len() && store.modules@[y] == b;
    if x < y {
        assert(!store.modules@[x].is_keyed(
            store.modules@[y].technical_name@,
            store.modules@[y].version_odoo,
            store.modules@[y].gh_repository_id.0,
        ));
    } else if y < x {
        assert(!store.modules@[y].is_keyed(
            store.modules@[x].technical_name@,
            store.modules@[x].version_odoo,
            store.modules@[x].gh_repository_id.0,
        ));
    }
}

/// Where the catalog is in line with a scrape, the module of the scrape is
/// found in the repository of the scrape, as a row that differs in nothing.
proof fn in_sync_is_found(store: Store, module_info: ManifestInfo, repo: gh_repository::Model)
    requires
        store.wf(),
        in_sync(store, module_info),
        store.repositories@.contains(repo),
        repo.name@ == module_info.git_repo@,
        repo.gh_organization_id.1@ == module_info.git_org@,
    ensures
        has_key(
            store.modules@,
            module_info.technical_name@,
            module_info.version_odoo,
            repo.id,
        ),
        synced(
            store,
            module_info,
            row_keyed(
                store.modules@,
                module_info.technical_name@,
                module_info.version_odoo,
                repo.id,
            ),
        ),
{
    let m = choose|m: Model| synced(store, module_info, m);
    let repos = store.repositories@;
    let i = choose|i: int|
        0 <= i < repos.len() && (#[trigger] repos[i]).id == m.gh_repository_id.0 && repos[i].name@
            == module_info.git_repo@ && repos[i].gh_organization_id.1@ == module_info.git_org@;
    assert(repos.contains(repos[i]));
    lemma_one_repository(store, repos[i], repo);
    let k = choose|k: int| 0 <= k < store.modules@.len() && store.modules@[k] == m;
    assert(store.modules@[k].is_keyed(
        module_info.technical_name@,
        module_info.version_odoo,
        repo.id,
    ));
    lemma_row_keyed(store.modules@, k);
}

/// Where a module of the catalog lives in the repository that was looked up,
/// the catalog had that repository, and looking it up changed nothing.
proof fn home_is_old(
    before: Store,
    after: Store,
    module_info: ManifestInfo,
    repo: gh_repository::Model,
    had: Model,
)
    requires
        before.wf(),
        after.wf(),
        before.modules@.contains(had),
        had.gh_repository_id.0 == repo.id,
        after.repositories@.contains(repo),
        repo.name@ == module_info.git_repo@,
        repo.gh_organization_id.1@ == module_info.git_org@,
        !gh_repository::has_named(
            before.repositories@,
            module_info.git_repo@,
            module_info.git_org@,
        ) ==> after.repositories@ == before.repositories@.push(repo),
        gh_repository::has_named(
            before.repositories@,
            module_info.git_repo@,
            module_info.git_org@,
        ) ==> after == before,
    ensures
        after == before,
{
    let k = choose|k: int| 0 <= k < before.modules@.len() && before.modules@[k] == had;
    assert(gh_repository::has(
        before.repositories@,
        before.modules@[k].gh_repository_id.0,
        before.modules@[k].gh_repository_id.1@,
    ));
    let i = choose|i: int|
        0 <= i < before.repositories@.len() && (#[trigger] before.repositories@[i]).id == repo.id;
    if !gh_repository::has_named(
        before.repositories@,
        module_info.git_repo@,
        module_info.git_org@,
    ) {
        let j = before.repositories@.len() as int;
        assert(after.repositories@[i] == before.repositories@[i]);
        assert(after.repositories@[j] == repo);
        assert(after.repositories@[i].id != after.repositories@[j].id);
    }
}

/// Whether the rows `after` are the rows `before` with the module of the
/// scrape `module_info` taken in as the row `m`: entered behind the others
/// where `before` lacked it, else put in the place of the row that `before`
/// had, as what the scrape makes of that row.
pub open spec fn taken_in(
    before: Seq<Model>,
    after: Seq<Model>,
    module_info: ManifestInfo,
    now: Seq<char>,
    m: Model,
) -> bool {
    if has_key(
        before,
        module_info.technical_name@,
        module_info.version_odoo,
        m.gh_repository_id.0,
    ) {
        &&& refreshed(
            m,
            row_keyed(
                before,
                module_info.technical_name@,
                module_info.version_odoo,
                m.gh_repository_id.0,
            ),
            module_info,
            now,
        )
        &&& after.len() == before.len()
        &&& forall|x: Model| after.contains(x) <==> x == m || (before.contains(x) && x.id != m.id)
    } else {
        &&& entered(m, module_info, now)
        &&& after == before.push(m)
    }
}

/// A row that is stored as the module of a scrape lives in the repository
/// of the scrape.
proof fn lemma_stored_in(store: Store, module_info: ManifestInfo, repo: gh_repository::Model, o: Model)
    requires
        store.wf(),
        store.repositories@.contains(repo),
        repo.name@ == module_info.git_repo@,
        repo.gh_organization_id.1@ == module_info.git_org@,
        is_stored_as(store, module_info, o),
    ensures
        o.gh_repository_id.0 == repo.id,
{
    let repos = store.repositories@;
    let i = choose|i: int|
        0 <= i < repos.len() && (#[trigger] repos[i]).id == o.gh_repository_id.0 && repos[i].name@
            == module_info.git_repo@ && repos[i].gh_organization_id.1@ == module_info.git_org@;
    assert(repos.contains(repos[i]));
    lemma_one_repository(store, repos[i], repo);
}

/// Where the catalog holds a row with the key of a scrape in the repository
/// of the scrape, that row is the only one stored as the module of the
/// scrape.
proof fn lemma_stored(store: Store, module_info: ManifestInfo, repo: gh_repository::Model, i: int)
    requires
        store.wf(),
        store.repositories@.contains(repo),
        repo.name@ == module_info.git_repo@,
        repo.gh_organization_id.1@ == module_info.git_org@,
        0 <= i < store.modules@.len(),
        store.modules@[i].is_keyed(
            module_info.technical_name@,
            module_info.version_odoo,
            repo.id,
        ),
    ensures
        forall|o: Model| #[trigger] is_stored_as(store, module_info, o) ==> o == store.modules@[i],
{
    assert forall|o: Model| #[trigger] is_stored_as(store, module_info, o) implies o
        == store.modules@[i] by {
        lemma_stored_in(store, module_info, repo, o);
        let rows = store.modules@;
        let k = choose|k: int| 0 <= k < rows.len() && rows[k] == o;
        if k < i {
            assert(!rows[k].is_keyed(
                rows[i].technical_name@,
                rows[i].version_odoo,
                rows[i].gh_repository_id.0,
            ));
        } else if i < k {
            assert(!rows[i].is_keyed(
                rows[k].technical_name@,
                rows[k].version_odoo,
                rows[k].gh_repository_id.0,
            ));
        }
    }
}

/// In a well-formed catalog one row at most is stored as the module of a
/// scrape.
pub proof fn lemma_one_stored(store: Store, module_info: ManifestInfo, a: Model, b: Model)
    requires
        store.wf(),
        is_stored_as(store, module_info, a),
        is_stored_as(store, module_info, b),
    ensures
        a == b,
{
    let repos = store.repositories@;
    let k = choose|k: int|
        0 <= k < repos.len() && (#[trigger] repos[k]).id == a.gh_repository_id.0 && repos[k].name@
            == module_info.git_repo@ && repos[k].gh_organization_id.1@ == module_info.git_org@;
    assert(repos.contains(repos[k]));
    let i = choose|i: int| 0 <= i < store.modules@.len() && store.modules@[i] == a;
    assert(store.modules@[i].is_keyed(
        module_info.technical_name@,
        module_info.version_odoo,
        repos[k].id,
    ));
    lemma_stored(store, module_info, repos[k], i);
}

/// Where the catalog, after the home of a scrape was looked up, holds no
/// row with the key of the scrape in that repository, no row was stored as
/// the module of the scrape before.
proof fn lemma_not_stored(
    before: Store,
    after: Store,
    module_info: ManifestInfo,
    repo: gh_repository::Model,
)
    requires
        before.wf(),
        after.wf(),
        after.modules@ == before.modules@,
        after.repositories@.contains(repo),
        repo.name@ == module_info.git_repo@,
        repo.gh_organization_id.1@ == module_info.git_org@,
        homed(before, after, module_info, repo.id),
        !has_key(
            after.modules@,
            module_info.technical_name@,
            module_info.version_odoo,
            repo.id,
        ),
    ensures
        forall|o: Model| !#[trigger] is_stored_as(before, module_info, o),
{
    assert forall|o: Model| !#[trigger] is_stored_as(before, module_info, o) by {
        if is_stored_as(before, module_info, o) {
            let repos = before.repositories@;
            let i = choose|i: int|
                0 <= i < repos.len() && (#[trigger] repos[i]).id == o.gh_repository_id.0
                    && repos[i].name@ == module_info.git_repo@ && repos[i].gh_organization_id.1@
                    == module_info.git_org@;
            assert(gh_repository::has_named(repos, module_info.git_repo@, module_info.git_org@));
            assert(after.repositories@ == repos);
            assert(is_stored_as(after, module_info, o));
            lemma_stored_in(after, module_info, repo, o);
            let k = choose|k: int| 0 <= k < after.modules@.len() && after.modules@[k] == o;
            assert(after.modules@[k].is_keyed(
                module_info.technical_name@,
                module_info.version_odoo,
                repo.id,
            ));
        }
    }
}

/// The place of the repository of the scrape `module_info`: the first row
/// of its name under an organization of its name.
fn place_of_home(store: &Store, module_info: &ManifestInfo) -> (r: Option<usize>)
    ensures
        r is Some <==> gh_repository::has_named(
            store.repositories@,
            module_info.git_repo@,
            module_info.git_org@,
        ),
        r matches Some(i) ==> i < store.repositories@.len() && store.repositories@[i as int].name@
            == module_info.git_repo@ && store.repositories@[i as int].gh_organization_id.1@
            == module_info.git_org@,
{
    let mut i: usize = 0;
    while i < store.repositories.len()
        invariant
            i <= store.repositories.len(),
            forall|k: int|
                0 <= k < i ==> !((#[trigger] store.repositories@[k]).name@ == module_info.git_repo@
                    && store.repositories@[k].gh_organization_id.1@ == module_info.git_org@),
        decreases store.repositories.len() - i,
    {
        if same_text(store.repositories[i].name.as_str(), module_info.git_repo.as_str())
            && same_text(
            store.repositories[i].gh_organization_id.1.as_str(),
            module_info.git_org.as_str(),
        ) {
            return Some(i);
        }
        i += 1;
    }
    None
}

/// Whether the people of the module `module_id` are those of the scrape
/// `module_info`.
pub fn people_are_in_line(store: &Store, module_info: &ManifestInfo, module_id: i64) -> (r: bool)
    ensures
        r == people_match(*store, *module_info, module_id),
{
    let authors = module_author::get_names_by_module_id(store, &module_id);
    let wanted_authors = names_in(module_info.author.as_str());
    proof {
        assert forall|n: Seq<char>|
            module_author::has_name(store.module_authors@, module_id, n) <==> texts(
                authors@,
            ).contains(n) by {
            module_author::lemma_names_of_module(store.module_authors@, module_id, n);
        }
    }
    if !crate::names::same_names(&authors, &wanted_authors) {
        return false;
    }
    let maintainers = module_maintainer::get_names_by_module_id(store, &module_id);
    let wanted_maintainers = names_in(module_info.maintainer.as_str());
    proof {
        assert forall|n: Seq<char>|
            module_maintainer::has_name(store.module_maintainers@, module_id, n) <==> texts(
                maintainers@,
            ).contains(n) by {
            module_maintainer::lemma_names_of_module(store.module_maintainers@, module_id, n);
        }
    }
    if !crate::names::same_names(&maintainers, &wanted_maintainers) {
        return false;
    }
    let mut i: usize = 0;
    while i < module_info.committers.len()
        invariant
            i <= module_info.committers.len(),
            forall|k: int|
                0 <= k < i ==> module_committer::has_count(
                    store.module_committers@,
                    module_id,
                    (#[trigger] module_info.committers@[k]).0@,
                    module_info.committers@[k].1,
                ),
        decreases module_info.committers.len() - i,
    {
        if !module_committer::has_commits(
            store,
            &module_id,
            module_info.committers[i].0.as_str(),
            &module_info.committers[i].1,
        ) {
            return false;
        }
        i += 1;
    }
    true
}

/// Nothing is said of the people of a module where they are those of the
/// scrape, committers among them.
pub proof fn lemma_people_quiet(store: Store, module_info: ManifestInfo, module_id: i64)
    requires
        people_match(store, module_info, module_id),
    ensures
        said_of_people(store, module_info, module_id, true) == Seq::<Signature>::empty(),
{
    people_in_line(store, module_info, module_id);
    let names = module_committer::counted_names(module_info.committers@);
    let linked = module_committer::names_of_module(store.module_committers@, module_id);
    assert forall|i: int| 0 <= i < names.len() implies linked.contains(#[trigger] names[i]) by {
        assert(module_committer::has_count(
            store.module_committers@,
            module_id,
            module_info.committers@[i].0@,
            module_info.committers@[i].1,
        ));
        module_committer::lemma_names_of_module(store.module_committers@, module_id, names[i]);
    }
    crate::names::lemma_minus_of_subset(names, linked);
    assert(said_of_people(store, module_info, module_id, true) =~= Seq::<Signature>::empty());
}

/// Whether taking the scrape `module_info` in may draw identities: the
/// catalog does not hold the module of the scrape with the people that the
/// scrape found. Where it holds it so, only fields are written.
pub open spec fn needs_identities(store: Store, module_info: ManifestInfo) -> bool {
    !exists|o: Model|
        #[trigger] is_stored_as(store, module_info, o) && people_match(store, module_info, o.id)
}

/// The places of the repository and of the row of the module of the scrape
/// `module_info`, where the catalog holds the module with the people that
/// the scrape found.
pub fn place_settled(store: &Store, module_info: &ManifestInfo) -> (r: Option<(usize, usize)>)
    requires
        store.wf(),
    ensures
        r is Some <==> !needs_identities(*store, *module_info),
        r matches Some((k, i)) ==> {
            &&& k < store.repositories@.len()
            &&& store.repositories@[k as int].name@ == module_info.git_repo@
            &&& store.repositories@[k as int].gh_organization_id.1@ == module_info.git_org@
            &&& i < store.modules@.len()
            &&& store.modules@[i as int].is_keyed(
                module_info.technical_name@,
                module_info.version_odoo,
                store.repositories@[k as int].id,
            )
            &&& people_match(*store, *module_info, store.modules@[i as int].id)
        },
{
    let k = match place_of_home(store, module_info) {
        Some(k) => k,
        None => {
            proof {
                assert forall|o: Model| !#[trigger] is_stored_as(*store, *module_info, o) by {}
            }
            return None;
        },
    };
    proof {
        assert(store.repositories@.contains(store.repositories@[k as int]));
        assert forall|o: Model| #[trigger]
            is_stored_as(*store, *module_info, o) implies o.gh_repository_id.0
            == store.repositories@[k as int].id by {
            lemma_stored_in(*store, *module_info, store.repositories@[k as int], o);
        }
    }
    let i = match position(
        store,
        module_info.technical_name.as_str(),
        &module_info.version_odoo,
        &store.repositories[k].id,
    ) {
        Some(i) => i,
        None => {
            proof {
                assert forall|o: Model| !#[trigger] is_stored_as(*store, *module_info, o) by {
                    if is_stored_as(*store, *module_info, o) {
                        let j = choose|j: int|
                            0 <= j < store.modules@.len() && store.modules@[j] == o;
                        assert(store.modules@[j].is_keyed(
                            module_info.technical_name@,
                            module_info.version_odoo,
                            store.repositories@[k as int].id,
                        ));
                    }
                }
            }
            return None;
        },
    };
    proof {
        lemma_stored(*store, *module_info, store.repositories@[k as int], i as int);
        assert(store.modules@.contains(store.modules@[i as int]));
        assert(gh_repository::has_in(
            store.repositories@,
            store.modules@[i as int].gh_repository_id.0,
            module_info.git_repo@,
            module_info.git_org@,
        ));
        assert(is_stored_as(*store, *module_info, store.modules@[i as int]));
    }
    if people_are_in_line(store, module_info, store.modules[i].id) {
        Some((k, i))
    } else {
        None
    }
}

/// Where the catalog has the repository of a scrape, looking the home of
/// the scrape up has nothing to say and nothing to write.
proof fn lemma_home_quiet(store: Store, module_info: ManifestInfo, k: int)
    requires
        store.wf(),
        0 <= k < store.repositories@.len(),
        store.repositories@[k].name@ == module_info.git_repo@,
        store.repositories@[k].gh_organization_id.1@ == module_info.git_org@,
    ensures
        said_by_home(store, module_info) == Seq::<Signature>::empty(),
        homed(store, store, module_info, store.repositories@[k].id),
{
    let repos = store.repositories@;
    assert(gh_organization::has(
        store.organizations@,
        repos[k].gh_organization_id.0,
        repos[k].gh_organization_id.1@,
    ));
    assert(gh_organization::has_name(store.organizations@, module_info.git_org@));
    assert(gh_repository::has_named(repos, module_info.git_repo@, module_info.git_org@));
    assert(said_by_home(store, module_info) =~= Seq::<Signature>::empty());
}

/// Takes one scrape of one module in. The organization and the repository
/// are entered where the catalog lacks them. Where the catalog lacks the
/// module, it is entered with everything that the scrape found of it. Where
/// it has the module, the numbers of commits are set, authors and
/// maintainers are brought in line with the scrape, and the fields that
/// differ are written with `now` as the date of the update. All of that is
/// reported; where nothing differs, nothing is written and nothing reported.
/// The row that is handed back is the stored one where the catalog had the
/// module, under the same identity. Organizations and repositories that the
/// catalog had stay as they were. Taking a scrape in fails only where it
/// may draw identities, which a stored module with the people of the scrape
/// does not, and the sequence of identities may not reach.
pub fn add(store: &mut Store, module_info: &ManifestInfo, now: &str) -> (r: Result<
    Model,
    StoreError,
>)
    requires
        old(store).wf(),
        module_info.wf(),
    ensures
        final(store).wf(),
        extends(final(store).system_events@, old(store).system_events@),
        dated(final(store).system_events@, old(store).system_events@, now@),
        r is Err <==> needs_identities(*old(store), *module_info) && old(store).last_id
            + ids_needed(*module_info) > i64::MAX,
        r matches Err(e) ==> e == StoreError::IdsExhausted && *final(store) == *old(store),
        in_sync(*old(store), *module_info) ==> *final(store) == *old(store),
        r matches Ok(m) ==> {
            let existed = has_key(
                old(store).modules@,
                module_info.technical_name@,
                module_info.version_odoo,
                m.gh_repository_id.0,
            );
            let had = row_keyed(
                old(store).modules@,
                module_info.technical_name@,
                module_info.version_odoo,
                m.gh_repository_id.0,
            );
            &&& synced(*final(store), *module_info, m)
            &&& others_keep_people(*old(store), *final(store), m.id)
            &&& said(final(store).system_events@, old(store).system_events@) == said_by_add(
                *old(store),
                *module_info,
                m,
            )
            &&& taken_in(old(store).modules@, final(store).modules@, *module_info, now@, m)
            &&& !existed ==> {
                &&& m.id > old(store).last_id
                &&& final(store).system_events@.last().date@ == now@
                &&& final(store).system_events@.last().message@ == new_module_message(
                    module_info.technical_name@,
                    module_info.name@,
                    module_info.version_module@,
                    module_info.git_org@,
                    module_info.git_repo@,
                    odoo_version_text(module_info.version_odoo),
                )
            }
            &&& existed ==> {
                &&& !described_by(had, *module_info) ==> {
                    &&& final(store).system_events@.last().date@ == now@
                    &&& final(store).system_events@.last().message@ == update_module_message(
                        module_info.technical_name@,
                        module_info.name@,
                        module_info.version_module@,
                        module_info.git_org@,
                        module_info.git_repo@,
                        odoo_version_text(module_info.version_odoo),
                        changes_between(had, *module_info),
                        had.last_commit_hash@,
                        had.last_commit_name@,
                        had.last_commit_author@,
                        had.last_commit_date@,
                        had.last_commit_partof@,
                    )
                }
            }
            &&& final(store).dependencies@ == old(store).dependencies@
            &&& final(store).dependency_modules@ == old(store).dependency_modules@
            &&& final(store).dependency_osvs@ == old(store).dependency_osvs@
            &&& old(store).last_id <= final(store).last_id <= old(store).last_id + ids_needed(
                *module_info,
            )
            &&& homed(*old(store), *final(store), *module_info, m.gh_repository_id.0)
            &&& forall|o: Model| #[trigger]
                is_stored_as(*old(store), *module_info, o) ==> m.id == o.id && refreshed(
                    m,
                    o,
                    *module_info,
                    now@,
                )
        },
{
    proof {
        lemma_said_nothing(store.system_events@);
    }
    let ghost s0 = *store;
    match place_settled(store, module_info) {
        Some((k, i)) => {
            let repo = store.repositories[k].duplicate();
            proof {
                assert(s0.repositories@.contains(repo));
                lemma_row_keyed(s0.modules@, i as int);
                lemma_home_quiet(s0, *module_info, k as int);
            }
            let m = refresh(store, module_info, &repo, i, now);
            proof {
                assert(said(store.system_events@, s0.system_events@) =~= said_by_add(
                    s0,
                    *module_info,
                    m,
                ));
                if in_sync(s0, *module_info) {
                    in_sync_is_found(s0, *module_info, repo);
                }
                lemma_stored(s0, *module_info, repo, i as int);
            }
            return Ok(m);
        },
        None => {},
    }
    let needed = ids_for(module_info);
    if store.last_id as i128 + needed > i64::MAX as i128 {
        return Err(StoreError::IdsExhausted);
    }
    let repo = home(store, module_info, now);
    let ghost s1 = *store;
    match position(
        store,
        module_info.technical_name.as_str(),
        &module_info.version_odoo,
        &repo.id,
    ) {
        None => {
            let m = enter(store, module_info, &repo, now);
            proof {
                lemma_said_in_turn(s0.system_events@, s1.system_events@, store.system_events@);
                assert(said_of_people(s1, *module_info, m.id, false) == said_of_people(
                    s0,
                    *module_info,
                    m.id,
                    false,
                ));
                assert(said(store.system_events@, s0.system_events@) =~= said_by_add(
                    s0,
                    *module_info,
                    m,
                ));
                if in_sync(s0, *module_info) {
                    in_sync_is_found(s0, *module_info, repo);
                }
                lemma_not_stored(s0, s1, *module_info, repo);
            }
            Ok(m)
        },
        Some(i) => {
            let ghost had = s1.modules@[i as int];
            proof {
                assert(s1.modules@.contains(had));
                lemma_row_keyed(s1.modules@, i as int);
                home_is_old(s0, s1, *module_info, repo, had);
            }
            let m = refresh(store, module_info, &repo, i, now);
            proof {
                assert(said(store.system_events@, s0.system_events@) =~= said_by_add(
                    s0,
                    *module_info,
                    m,
                ));
                if in_sync(s0, *module_info) {
                    in_sync_is_found(s0, *module_info, repo);
                }
                lemma_stored(s0, *module_info, repo, i as int);
            }
            Ok(m)
        },
    }
}

/// Enters the module of the scrape `module_info`, which the catalog lacks,
/// into the repository `repo`, with its people, and reports it.
fn enter(store: &mut Store, module_info: &ManifestInfo, repo: &gh_repository::Model, now: &str) -> (m:
    Model)
    requires
        old(store).wf(),
        module_info.wf(),
        old(store).last_id + ids_needed(*module_info) - 2 <= i64::MAX,
        old(store).repositories@.contains(*repo),
        repo.name@ == module_info.git_repo@,
        repo.gh_organization_id.1@ == module_info.git_org@,
        !has_key(
            old(store).modules@,
            module_info.technical_name@,
            module_info.version_odoo,
            repo.id,
        ),
    ensures
        final(store).wf(),
        synced(*final(store), *module_info, m),
        m.gh_repository_id.0 == repo.id,
        others_keep_people(*old(store), *final(store), m.id),
        entered(m, *module_info, now@),
        m.id > old(store).last_id,
        final(store).modules@ == old(store).modules@.push(m),
        extends(final(store).system_events@, old(store).system_events@),
        dated(final(store).system_events@, old(store).system_events@, now@),
        said(final(store).system_events@, old(store).system_events@) == said_of_people(
            *old(store),
            *module_info,
            m.id,
            false,
        ) + one_each(EventKind::NewModule, seq![module_info.technical_name@], ""@, m.id),
        final(store).system_events@.last().date@ == now@,
        final(store).system_events@.last().message@ == new_module_message(
            module_info.technical_name@,
            module_info.name@,
            module_info.version_module@,
            module_info.git_org@,
            module_info.git_repo@,
            odoo_version_text(module_info.version_odoo),
        ),
        old(store).last_id <= final(store).last_id <= old(store).last_id + ids_needed(
            *module_info,
        ) - 2,
        *final(store) == (Store {
            modules: final(store).modules,
            authors: final(store).authors,
            maintainers: final(store).maintainers,
            committers: final(store).committers,
            module_authors: final(store).module_authors,
            module_maintainers: final(store).module_maintainers,
            module_committers: final(store).module_committers,
            system_events: final(store).system_events,
            last_id: final(store).last_id,
            ..*old(store)
        }),
{
    let id = store.fresh_id();
    let row = Model {
        id,
        technical_name: module_info.technical_name.clone(),
        version_odoo: module_info.version_odoo,
        name: module_info.name.clone(),
        version_module: module_info.version_module.clone(),
        description: module_info.description.clone(),
        website: module_info.website.clone(),
        license: module_info.license.clone(),
        category: module_info.category.clone(),
        auto_install: module_info.auto_install,
        application: module_info.application,
        installable: module_info.installable,
        gh_repository_id: (repo.id, repo.name.clone()),
        create_date: now.to_owned(),
        update_date: now.to_owned(),
        folder_size: module_info.folder_size,
        last_commit_hash: module_info.last_commit_hash.clone(),
        last_commit_author: module_info.last_commit_author.clone(),
        last_commit_date: module_info.last_commit_date.clone(),
        last_commit_name: module_info.last_commit_name.clone(),
        last_commit_partof: module_info.last_commit_partof.clone(),
    };
    let m = row.duplicate();
    proof {
        let j = choose|j: int|
            0 <= j < old(store).repositories@.len() && old(store).repositories@[j] == *repo;
        gh_repository::lemma_has_row(old(store).repositories@, j);
        lemma_after_push(
            old(store).modules@,
            m,
            old(store).last_id,
            old(store).repositories@,
        );
    }
    store.modules.push(row);
    let ghost s2 = *store;
    proof {
        assert(s2.modules@[s2.modules@.len() - 1] == m);
        assert(s2.modules@.contains(m));
        assert(s2.wf());
    }
    sync_people(store, module_info, id, false, now);
    let ghost s3 = *store;
    let version = odoo_version_u8_to_string(&module_info.version_odoo);
    let e = register_new_module(
        store,
        id,
        module_info.technical_name.as_str(),
        module_info.name.as_str(),
        module_info.version_module.as_str(),
        repo.gh_organization_id.1.as_str(),
        module_info.git_repo.as_str(),
        version.as_str(),
        now,
    );
    proof {
        lemma_said_after_push(old(store).system_events@, s3.system_events@, e);
        assert(said_of_people(s2, *module_info, id, false) == said_of_people(
            *old(store),
            *module_info,
            id,
            false,
        ));
        assert(said(store.system_events@, old(store).system_events@) =~= said_of_people(
            *old(store),
            *module_info,
            m.id,
            false,
        ) + one_each(EventKind::NewModule, seq![module_info.technical_name@], ""@, m.id));
        let j = choose|j: int|
            0 <= j < old(store).repositories@.len() && old(store).repositories@[j] == *repo;
        assert(store.repositories@[j] == *repo);
    }
    m
}

/// Brings the people of the module `module_id`, which the catalog had, in
/// line with the scrape `module_info`; where they are in line already,
/// nothing is written and no identity is drawn.
fn settle_people(store: &mut Store, module_info: &ManifestInfo, module_id: i64, now: &str)
    requires
        old(store).wf(),
        module_info.wf(),
        people_match(*old(store), *module_info, module_id) || old(store).last_id + ids_needed(
            *module_info,
        ) - 3 <= i64::MAX,
        has_id(old(store).modules@, module_id),
    ensures
        final(store).wf(),
        people_match(*final(store), *module_info, module_id),
        others_keep_people(*old(store), *final(store), module_id),
        extends(final(store).system_events@, old(store).system_events@),
        dated(final(store).system_events@, old(store).system_events@, now@),
        said(final(store).system_events@, old(store).system_events@) == said_of_people(
            *old(store),
            *module_info,
            module_id,
            true,
        ),
        people_match(*old(store), *module_info, module_id) ==> *final(store) == *old(store),
        old(store).last_id <= final(store).last_id,
        !people_match(*old(store), *module_info, module_id) ==> final(store).last_id <= old(
            store,
        ).last_id + ids_needed(*module_info) - 3,
        *final(store) == (Store {
            authors: final(store).authors,
            maintainers: final(store).maintainers,
            committers: final(store).committers,
            module_authors: final(store).module_authors,
            module_maintainers: final(store).module_maintainers,
            module_committers: final(store).module_committers,
            system_events: final(store).system_events,
            last_id: final(store).last_id,
            ..*old(store)
        }),
{
    if people_are_in_line(store, module_info, module_id) {
        proof {
            lemma_people_quiet(*store, *module_info, module_id);
            lemma_said_nothing(store.system_events@);
        }
    } else {
        sync_people(store, module_info, module_id, true, now);
    }
}

/// Brings the module at `i`, which is the module of the scrape `module_info`
/// in the repository `repo`, in line with the scrape, and reports what
/// changed. Where the people of the module are those of the scrape already,
/// no identity is drawn.
fn refresh(
    store: &mut Store,
    module_info: &ManifestInfo,
    repo: &gh_repository::Model,
    i: usize,
    now: &str,
) -> (m: Model)
    requires
        old(store).wf(),
        module_info.wf(),
        people_match(*old(store), *module_info, old(store).modules@[i as int].id) || old(
            store,
        ).last_id + ids_needed(*module_info) - 3 <= i64::MAX,
        old(store).repositories@.contains(*repo),
        repo.name@ == module_info.git_repo@,
        repo.gh_organization_id.1@ == module_info.git_org@,
        i < old(store).modules@.len(),
        old(store).modules@[i as int].is_keyed(
            module_info.technical_name@,
            module_info.version_odoo,
            repo.id,
        ),
    ensures
        final(store).wf(),
        synced(*final(store), *module_info, m),
        m.gh_repository_id.0 == repo.id,
        others_keep_people(*old(store), *final(store), m.id),
        refreshed(m, old(store).modules@[i as int], *module_info, now@),
        final(store).modules@.len() == old(store).modules@.len(),
        forall|x: Model|
            final(store).modules@.contains(x) <==> x == m || (old(store).modules@.contains(x)
                && x.id != m.id),
        extends(final(store).system_events@, old(store).system_events@),
        dated(final(store).system_events@, old(store).system_events@, now@),
        said(final(store).system_events@, old(store).system_events@) == said_of_people(
            *old(store),
            *module_info,
            m.id,
            true,
        ) + (if described_by(old(store).modules@[i as int], *module_info) {
            Seq::<Signature>::empty()
        } else {
            one_each(EventKind::UpdatedModule, seq![module_info.technical_name@], ""@, m.id)
        }),
        !described_by(old(store).modules@[i as int], *module_info) ==> {
            &&& final(store).system_events@.last().date@ == now@
            &&& final(store).system_events@.last().message@ == update_module_message(
                module_info.technical_name@,
                module_info.name@,
                module_info.version_module@,
                module_info.git_org@,
                module_info.git_repo@,
                odoo_version_text(module_info.version_odoo),
                changes_between(old(store).modules@[i as int], *module_info),
                old(store).modules@[i as int].last_commit_hash@,
                old(store).modules@[i as int].last_commit_name@,
                old(store).modules@[i as int].last_commit_author@,
                old(store).modules@[i as int].last_commit_date@,
                old(store).modules@[i as int].last_commit_partof@,
            )
        },
        people_match(*old(store), *module_info, old(store).modules@[i as int].id) && described_by(
            old(store).modules@[i as int],
            *module_info,
        ) ==> *final(store) == *old(store),
        old(store).last_id <= final(store).last_id <= old(store).last_id + ids_needed(
            *module_info,
        ) - 3,
        *final(store) == (Store {
            modules: final(store).modules,
            authors: final(store).authors,
            maintainers: final(store).maintainers,
            committers: final(store).committers,
            module_authors: final(store).module_authors,
            module_maintainers: final(store).module_maintainers,
            module_committers: final(store).module_committers,
            system_events: final(store).system_events,
            last_id: final(store).last_id,
            ..*old(store)
        }),
{
    let ghost had = old(store).modules@[i as int];
    let id = store.modules[i].id;
    proof {
        assert(old(store).modules@.contains(had));
    }
    settle_people(store, module_info, id, now);
    let ghost s2 = *store;
    let found = store.modules[i].duplicate();
    let differences = changes(&found, module_info);
    proof {
        lemma_no_changes(had, *module_info);
        let j = choose|j: int|
            0 <= j < old(store).repositories@.len() && old(store).repositories@[j] == *repo;
        assert(store.repositories@[j] == *repo);
        assert(changes_of(differences@).len() == differences@.len());
        assert(s2.modules@.contains(found));
    }
    if differences.len() == 0 {
        proof {
            assert(said(store.system_events@, old(store).system_events@) =~= said_of_people(
                *old(store),
                *module_info,
                id,
                true,
            ) + Seq::<Signature>::empty());
            assert forall|x: Model|
                store.modules@.contains(x) <==> x == found || (old(store).modules@.contains(x)
                    && x.id != found.id) by {
                if old(store).modules@.contains(x) && x.id == found.id {
                    let k = choose|k: int|
                        0 <= k < old(store).modules@.len() && old(store).modules@[k] == x;
                    if k < i {
                        assert(old(store).modules@[k].id != old(store).modules@[i as int].id);
                    } else if i < k {
                        assert(old(store).modules@[i as int].id != old(store).modules@[k].id);
                    }
                }
            }
        }
        return found;
    }
    let row = Model {
        id: found.id,
        technical_name: found.technical_name.clone(),
        version_odoo: found.version_odoo,
        name: module_info.name.clone(),
        version_module: module_info.version_module.clone(),
        description: module_info.description.clone(),
        website: module_info.website.clone(),
        license: module_info.license.clone(),
        category: module_info.category.clone(),
        auto_install: module_info.auto_install,
        application: module_info.application,
        installable: module_info.installable,
        gh_repository_id: (found.gh_repository_id.0, found.gh_repository_id.1.clone()),
        create_date: found.create_date.clone(),
        update_date: now.to_owned(),
        folder_size: module_info.folder_size,
        last_commit_hash: found.last_commit_hash.clone(),
        last_commit_author: found.last_commit_author.clone(),
        last_commit_date: found.last_commit_date.clone(),
        last_commit_name: found.last_commit_name.clone(),
        last_commit_partof: found.last_commit_partof.clone(),
    };
    let m = row.duplicate();
    proof {
        lemma_after_update(s2.modules@, i as int, m, s2.last_id, s2.repositories@);
    }
    store.modules.set(i, row);
    let ghost s3 = *store;
    proof {
        assert(s3.modules@[i as int] == m);
        assert(s3.modules@.contains(m));
    }
    let version = odoo_version_u8_to_string(&module_info.version_odoo);
    let log = LogUpdateModuleInfo {
        module_technical_name: module_info.technical_name.as_str(),
        module_name: module_info.name.as_str(),
        module_version: module_info.version_module.as_str(),
        org_name: repo.gh_organization_id.1.as_str(),
        repo_name: module_info.git_repo.as_str(),
        module_version_odoo: version.as_str(),
        module_changes: &differences,
        last_commit_hash: found.last_commit_hash.as_str(),
        last_commit_author: found.last_commit_author.as_str(),
        last_commit_date: found.last_commit_date.as_str(),
        last_commit_name: found.last_commit_name.as_str(),
        last_commit_partof: found.last_commit_partof.as_str(),
    };
    let e = register_update_module(store, id, &log, now);
    proof {
        lemma_said_after_push(old(store).system_events@, s2.system_events@, e);
        assert(said(store.system_events@, old(store).system_events@) =~= said_of_people(
            *old(store),
            *module_info,
            id,
            true,
        ) + one_each(EventKind::UpdatedModule, seq![module_info.technical_name@], ""@, id));
    }
    m
}

/// The rows stay well keyed, below `last_id` and housed without the row at
/// `i`, and lose the identity of that row only.
pub proof fn lemma_after_remove(
    rows: Seq<Model>,
    i: int,
    last_id: i64,
    repositories: Seq<gh_repository::Model>,
)
    requires
        0 <= i < rows.len(),
        well_keyed(rows),
        ids_below(rows, last_id),
        housed(rows, repositories),
    ensures
        well_keyed(rows.remove(i)),
        ids_below(rows.remove(i), last_id),
        housed(rows.remove(i), repositories),
        forall|r: Model| rows.remove(i).contains(r) <==> rows.contains(r) && r != rows[i],
        forall|id: i64| has_id(rows.remove(i), id) <==> has_id(rows, id) && id != rows[i].id,
{
    let s = rows.remove(i);
    rows.remove_ensures(i);
    assert forall|k: int| 0 <= k < s.len() implies #[trigger] s[k] == rows[if k < i {
        k
    } else {
        k + 1
    }] by {}
    assert forall|a: int, b: int| 0 <= a < b < s.len() implies (#[trigger] s[a]).id != (
    #[trigger] s[b]).id && !s[a].is_keyed(
        s[b].technical_name@,
        s[b].version_odoo,
        s[b].gh_repository_id.0,
    ) by {
        let a2 = if a < i {
            a
        } else {
            a + 1
        };
        let b2 = if b < i {
            b
        } else {
            b + 1
        };
        assert(s[a] == rows[a2]);
        assert(s[b] == rows[b2]);
    }
    assert forall|k: int| 0 <= k < s.len() implies gh_repository::has(
        repositories,
        (#[trigger] s[k]).gh_repository_id.0,
        s[k].gh_repository_id.1@,
    ) by {
        let k2 = if k < i {
            k
        } else {
            k + 1
        };
        assert(s[k] == rows[k2]);
    }
    assert forall|r: Model| s.contains(r) <==> rows.contains(r) && r != rows[i] by {
        if s.contains(r) {
            let k = choose|k: int| 0 <= k < s.len() && s[k] == r;
            let k2 = if k < i {
                k
            } else {
                k + 1
            };
            assert(rows[k2] == r);
            if k2 < i {
                assert(rows[k2].id != rows[i].id);
            } else {
                assert(rows[i].id != rows[k2].id);
            }
        }
        if rows.contains(r) && r != rows[i] {
            let k = choose|k: int| 0 <= k < rows.len() && rows[k] == r;
            if k < i {
                assert(s[k] == r);
            } else {
                assert(s[k - 1] == r);
            }
        }
    }
    assert forall|id: i64| has_id(s, id) <==> has_id(rows, id) && id != rows[i].id by {
        if has_id(s, id) {
            let k = choose|k: int| 0 <= k < s.len() && (#[trigger] s[k]).id == id;
            let k2 = if k < i {
                k
            } else {
                k + 1
            };
            assert(rows[k2].id == id);
            if k2 < i {
                assert(rows[k2].id != rows[i].id);
            } else {
                assert(rows[i].id != rows[k2].id);
            }
        }
        if has_id(rows, id) && id != rows[i].id {
            let k = choose|k: int| 0 <= k < rows.len() && (#[trigger] rows[k]).id == id;
            if k < i {
                assert(s[k].id == id);
            } else {
                assert(s[k - 1].id == id);
            }
        }
    }
}

/// Whether the row `m` is stale after a scan of the bucket `version_odoo`
/// of the repository `gh_repo_id` that met the modules `keep`: it belongs to
/// that repository and bucket, and the scan did not meet it.
pub open spec fn is_stale(m: Model, gh_repo_id: i64, version_odoo: u8, keep: Seq<i64>) -> bool {
    m.gh_repository_id.0 == gh_repo_id && m.version_odoo == version_odoo && !keep.contains(m.id)
}

/// Whether the module `id` was in `before` and is not in `after`.
pub open spec fn purged(before: Seq<Model>, after: Seq<Model>, id: i64) -> bool {
    has_id(before, id) && !has_id(after, id)
}

/// Whether `after` is `before` without the rows that belonged to a module
/// that is gone: the people of such a module, its edges, and the records on
/// those edges.
pub open spec fn cascaded(before: Store, after: Store) -> bool {
    &&& forall|e: module_author::Model|
        after.module_authors@.contains(e) <==> before.module_authors@.contains(e) && !purged(
            before.modules@,
            after.modules@,
            e.module_id.0,
        )
    &&& forall|e: module_maintainer::Model|
        after.module_maintainers@.contains(e) <==> before.module_maintainers@.contains(e)
            && !purged(before.modules@, after.modules@, e.module_id.0)
    &&& forall|e: module_committer::Model|
        after.module_committers@.contains(e) <==> before.module_committers@.contains(e)
            && !purged(before.modules@, after.modules@, e.module_id.0)
    &&& forall|e: dependency_module::Model|
        after.dependency_modules@.contains(e) <==> before.dependency_modules@.contains(e)
            && !purged(before.modules@, after.modules@, e.module_id.0)
    &&& forall|o: dependency_osv::Model|
        after.dependency_osvs@.contains(o) <==> before.dependency_osvs@.contains(o) && !(
        exists|e: dependency_module::Model|
            #[trigger] before.dependency_modules@.contains(e) && e.id == o.dependency_module_id.0
                && purged(before.modules@, after.modules@, e.module_id.0))
}

fn is_kept(module_ids: &[i64], id: i64) -> (r: bool)
    ensures
        r == module_ids@.contains(id),
{
    let mut i: usize = 0;
    while i < module_ids.len()
        invariant
            i <= module_ids.len(),
            forall|k: int| 0 <= k < i ==> module_ids@[k] != id,
        decreases module_ids.len() - i,
    {
        if module_ids[i] == id {
            return true;
        }
        i += 1;
    }
    false
}

/// Purges what a scan of the bucket `version_odoo` of the repository
/// `gh_repo_id` no longer found: every module of that repository and bucket
/// whose identity is not in `module_ids` goes, and with it its people, its
/// edges and the records on them. Where the scan met no module of the
/// repository, every module of that repository and bucket goes. Says how
/// many modules went.
pub fn delete_outdated(store: &mut Store, gh_repo_id: &i64, version_odoo: &u8, module_ids: &[i64]) -> (r:
    usize)
    requires
        old(store).wf(),
    ensures
        final(store).wf(),
        forall|m: Model|
            final(store).modules@.contains(m) <==> old(store).modules@.contains(m) && !is_stale(
                m,
                *gh_repo_id,
                *version_odoo,
                module_ids@,
            ),
        old(store).modules@.len() == final(store).modules@.len() + r,
        cascaded(*old(store), *final(store)),
        *final(store) == (Store {
            modules: final(store).modules,
            module_authors: final(store).module_authors,
            module_maintainers: final(store).module_maintainers,
            module_committers: final(store).module_committers,
            dependency_modules: final(store).dependency_modules,
            dependency_osvs: final(store).dependency_osvs,
            ..*old(store)
        }),
{
    let mut i: usize = 0;
    let mut r: usize = 0;
    while i < store.modules.len()
        invariant
            i <= store.modules.len(),
            store.wf(),
            old(store).wf(),
            old(store).modules@.len() == store.modules@.len() + r,
            forall|k: int|
                0 <= k < i ==> !is_stale(
                    #[trigger] store.modules@[k],
                    *gh_repo_id,
                    *version_odoo,
                    module_ids@,
                ),
            forall|m: Model| store.modules@.contains(m) ==> old(store).modules@.contains(m),
            forall|m: Model|
                old(store).modules@.contains(m) && !is_stale(
                    m,
                    *gh_repo_id,
                    *version_odoo,
                    module_ids@,
                ) ==> store.modules@.contains(m),
            cascaded(*old(store), *store),
            *store == (Store {
                modules: store.modules,
                module_authors: store.module_authors,
                module_maintainers: store.module_maintainers,
                module_committers: store.module_committers,
                dependency_modules: store.dependency_modules,
                dependency_osvs: store.dependency_osvs,
                ..*old(store)
            }),
        decreases store.modules.len() - i,
    {
        let id = store.modules[i].id;
        if store.modules[i].gh_repository_id.0 == *gh_repo_id && store.modules[i].version_odoo
            == *version_odoo && !is_kept(module_ids, id) {
            let ghost before = *store;
            proof {
                assert(before.modules@.contains(before.modules@[i as int]));
                assert(has_id(before.modules@, id));
            }
            let _ = dependency_osv::delete_by_module_id(store, &id);
            let _ = dependency_module::delete_by_module_id(store, &id);
            let _ = module_author::delete_by_module_id(store, &id);
            let _ = module_maintainer::delete_by_module_id(store, &id);
            let _ = module_committer::delete_by_module_id(store, &id);
            proof {
                lemma_after_remove(
                    store.modules@,
                    i as int,
                    store.last_id,
                    store.repositories@,
                );
            }
            let gone = store.modules.remove(i);
            proof {
                assert(old(store).modules.len() <= usize::MAX);
                let was = before.modules@;
                let now_rows = store.modules@;
                assert forall|x: i64| purged(old(store).modules@, now_rows, x) <==> purged(
                    old(store).modules@,
                    was,
                    x,
                ) || x == id by {
                    if x == id {
                        let k = choose|k: int|
                            0 <= k < old(store).modules@.len() && old(store).modules@[k]
                                == was[i as int];
                        assert(old(store).modules@[k].id == id);
                    }
                    if has_id(was, x) {
                        let k = choose|k: int| 0 <= k < was.len() && (#[trigger] was[k]).id == x;
                        assert(was.contains(was[k]));
                        let j = choose|j: int|
                            0 <= j < old(store).modules@.len() && old(store).modules@[j] == was[k];
                        assert(old(store).modules@[j].id == x);
                    }
                }
                assert forall|o: dependency_osv::Model|
                    store.dependency_osvs@.contains(o) <==> old(store).dependency_osvs@.contains(o)
                        && !(exists|e: dependency_module::Model|
                        #[trigger] old(store).dependency_modules@.contains(e) && e.id
                            == o.dependency_module_id.0 && purged(
                            old(store).modules@,
                            now_rows,
                            e.module_id.0,
                        )) by {
                    let gone_before = exists|e: dependency_module::Model|
                        #[trigger] old(store).dependency_modules@.contains(e) && e.id
                            == o.dependency_module_id.0 && purged(
                            old(store).modules@,
                            was,
                            e.module_id.0,
                        );
                    let gone_now = exists|e: dependency_module::Model|
                        #[trigger] old(store).dependency_modules@.contains(e) && e.id
                            == o.dependency_module_id.0 && purged(
                            old(store).modules@,
                            now_rows,
                            e.module_id.0,
                        );
                    let on_this = dependency_osv::edge_of_module(
                        before.dependency_modules@,
                        o.dependency_module_id.0,
                        id,
                    );
                    assert(before.dependency_osvs@.contains(o) <==> old(
                        store,
                    ).dependency_osvs@.contains(o) && !gone_before);
                    assert(store.dependency_osvs@.contains(o) <==> before.dependency_osvs@.contains(
                        o,
                    ) && !on_this);
                    if on_this {
                        let e = choose|e: dependency_module::Model|
                            #[trigger] before.dependency_modules@.contains(e) && e.id
                                == o.dependency_module_id.0 && e.module_id.0 == id;
                        assert(old(store).dependency_modules@.contains(e));
                        assert(purged(old(store).modules@, now_rows, e.module_id.0));
                    }
                    if gone_now && !gone_before {
                        let e = choose|e: dependency_module::Model|
                            #[trigger] old(store).dependency_modules@.contains(e) && e.id
                                == o.dependency_module_id.0 && purged(
                                old(store).modules@,
                                now_rows,
                                e.module_id.0,
                            );
                        assert(e.module_id.0 == id);
                        assert(!purged(old(store).modules@, was, id));
                        assert(before.dependency_modules@.contains(e));
                    }
                    if gone_before {
                        let e = choose|e: dependency_module::Model|
                            #[trigger] old(store).dependency_modules@.contains(e) && e.id
                                == o.dependency_module_id.0 && purged(
                                old(store).modules@,
                                was,
                                e.module_id.0,
                            );
                        assert(purged(old(store).modules@, now_rows, e.module_id.0));
                    }
                }
            }
            r += 1;
        } else {
            i += 1;
        }
    }
    proof {
        assert forall|m: Model| store.modules@.contains(m) implies !is_stale(
            m,
            *gh_repo_id,
            *version_odoo,
            module_ids@,
        ) by {
            let k = choose|k: int| 0 <= k < store.modules@.len() && store.modules@[k] == m;
        }
    }
    r
}

/// The rows of `rows` that are wanted, in order.
pub open spec fn chosen(rows: Seq<Model>, wanted: spec_fn(Model) -> bool) -> Seq<Model>
    decreases rows.len(),
{
    if rows.len() == 0 {
        Seq::<Model>::empty()
    } else {
        let init = chosen(rows.drop_last(), wanted);
        if wanted(rows.last()) {
            init.push(rows.last())
        } else {
            init
        }
    }
}

/// A row is among the chosen ones where it is a row and is wanted.
pub proof fn lemma_chosen(rows: Seq<Model>, wanted: spec_fn(Model) -> bool, m: Model)
    ensures
        chosen(rows, wanted).contains(m) <==> rows.contains(m) && wanted(m),
    decreases rows.len(),
{
    if rows.len() > 0 {
        let init = rows.drop_last();
        lemma_chosen(init, wanted, m);
        let c = chosen(init, wanted);
        if rows.contains(m) {
            let i = choose|i: int| 0 <= i < rows.len() && rows[i] == m;
            if i < rows.len() - 1 {
                assert(init[i] == m);
            }
        }
        if init.contains(m) {
            let i = choose|i: int| 0 <= i < init.len() && init[i] == m;
            assert(rows[i] == m);
        }
        if wanted(rows.last()) {
            let d = c.push(rows.last());
            if c.contains(m) {
                let i = choose|i: int| 0 <= i < c.len() && c[i] == m;
                assert(d[i] == m);
            }
            if d.contains(m) {
                let i = choose|i: int| 0 <= i < d.len() && d[i] == m;
                if i < c.len() {
                    assert(c[i] == m);
                }
            }
            assert(d[c.len() as int] == rows.last());
        }
        assert(rows[rows.len() - 1] == rows.last());
    }
}

/// The name of the organization that the module at `row` belongs to.
pub fn organization_of(store: &Store, row: usize) -> (r: String)
    requires
        store.wf(),
        row < store.modules@.len(),
    ensures
        r@ == gh_repository::org_name_of(
            store.repositories@,
            store.modules@[row as int].gh_repository_id.0,
        ),
{
    let repo = gh_repository::get_by_id(store, &store.modules[row].gh_repository_id.0);
    proof {
        assert(gh_repository::has(
            store.repositories@,
            store.modules@[row as int].gh_repository_id.0,
            store.modules@[row as int].gh_repository_id.1@,
        ));
        let i = choose|i: int| 0 <= i < store.repositories@.len() && store.repositories@[i] == repo->0;
        gh_repository::lemma_org_name_of(store.repositories@, i);
    }
    match repo {
        Some(found) => found.gh_organization_id.1,
        None => String::new(),
    }
}

/// The modules of the bucket `version_odoo`.
pub fn get_by_odoo_version(store: &Store, version_odoo: &u8) -> (r: Vec<Model>)
    ensures
        r@ == chosen(store.modules@, |m: Model| m.version_odoo == *version_odoo),
{
    let mut r: Vec<Model> = Vec::new();
    let mut i: usize = 0;
    let ghost wanted = |m: Model| m.version_odoo == *version_odoo;
    proof {
        assert(store.modules@.take(0) =~= Seq::<Model>::empty());
    }
    while i < store.modules.len()
        invariant
            i <= store.modules.len(),
            wanted == |m: Model| m.version_odoo == *version_odoo,
            r@ == chosen(store.modules@.take(i as int), wanted),
        decreases store.modules.len() - i,
    {
        proof {
            assert(store.modules@.take(i + 1).drop_last() =~= store.modules@.take(i as int));
            assert(store.modules@.take(i + 1).last() == store.modules@[i as int]);
        }
        if store.modules[i].version_odoo == *version_odoo {
            r.push(store.modules[i].duplicate());
        }
        i += 1;
    }
    proof {
        assert(store.modules@.take(store.modules@.len() as int) =~= store.modules@);
    }
    r
}

/// The modules named `technical_name` in the bucket `version_odoo`, in
/// whatever repository.
pub fn get_by_technical_name_odoo_version(store: &Store, technical_name: &str, version_odoo: &u8) -> (r: Vec<Model>)
    ensures
        r@ == chosen(store.modules@, |m: Model| m.technical_name@ == technical_name@ && m.version_odoo == *version_odoo),
{
    let mut r: Vec<Model> = Vec::new();
    let mut i: usize = 0;
    let ghost wanted = |m: Model| m.technical_name@ == technical_name@ && m.version_odoo == *version_odoo;
    proof {
        assert(store.modules@.take(0) =~= Seq::<Model>::empty());
    }
    while i < store.modules.len()
        invariant
            i <= store.modules.len(),
            wanted == |m: Model| m.technical_name@ == technical_name@ && m.version_odoo == *version_odoo,
            r@ == chosen(store.modules@.take(i as int), wanted),
        decreases store.modules.len() - i,
    {
        proof {
            assert(store.modules@.take(i + 1).drop_last() =~= store.modules@.take(i as int));
            assert(store.modules@.take(i + 1).last() == store.modules@[i as int]);
        }
        if store.modules[i].version_odoo == *version_odoo && same_text(
            store.modules[i].technical_name.as_str(),
            technical_name,
        ) {
            r.push(store.modules[i].duplicate());
        }
        i += 1;
    }
    proof {
        assert(store.modules@.take(store.modules@.len() as int) =~= store.modules@);
    }
    r
}

/// The modules named `technical_name` in the bucket `version_odoo`, in
/// repositories named `repo_name`.
pub fn get_by_technical_name_odoo_version_repository_name(store: &Store, technical_name: &str, version_odoo: &u8, repo_name: &str) -> (r: Vec<Model>)
    ensures
        r@ == chosen(store.modules@, |m: Model| m.technical_name@ == technical_name@ && m.version_odoo == *version_odoo
            && m.gh_repository_id.1@ == repo_name@),
{
    let mut r: Vec<Model> = Vec::new();
    let mut i: usize = 0;
    let ghost wanted = |m: Model| m.technical_name@ == technical_name@ && m.version_odoo == *version_odoo
            && m.gh_repository_id.1@ == repo_name@;
    proof {
        assert(store.modules@.take(0) =~= Seq::<Model>::empty());
    }
    while i < store.modules.len()
        invariant
            i <= store.modules.len(),
            wanted == |m: Model| m.technical_name@ == technical_name@ && m.version_odoo == *version_odoo
            && m.gh_repository_id.1@ == repo_name@,
            r@ == chosen(store.modules@.take(i as int), wanted),
        decreases store.modules.len() - i,
    {
        proof {
            assert(store.modules@.take(i + 1).drop_last() =~= store.modules@.take(i as int));
            assert(store.modules@.take(i + 1).last() == store.modules@[i as int]);
        }
        if store.modules[i].version_odoo == *version_odoo && same_text(
            store.modules[i].technical_name.as_str(),
            technical_name,
        ) && same_text(store.modules[i].gh_repository_id.1.as_str(), repo_name) {
            r.push(store.modules[i].duplicate());
        }
        i += 1;
    }
    proof {
        assert(store.modules@.take(store.modules@.len() as int) =~= store.modules@);
    }
    r
}

/// The modules named `technical_name` in the bucket `version_odoo`, in
/// repositories of the organization `org_name`.
pub fn get_by_technical_name_odoo_version_organization_name(store: &Store, technical_name: &str, version_odoo: &u8, org_name: &str) -> (r: Vec<Model>)
    requires
        store.wf(),
    ensures
        r@ == chosen(store.modules@, |m: Model| m.technical_name@ == technical_name@ && m.version_odoo == *version_odoo
            && gh_repository::org_name_of(store.repositories@, m.gh_repository_id.0)
            == org_name@),
{
    let mut r: Vec<Model> = Vec::new();
    let mut i: usize = 0;
    let ghost wanted = |m: Model| m.technical_name@ == technical_name@ && m.version_odoo == *version_odoo
            && gh_repository::org_name_of(store.repositories@, m.gh_repository_id.0)
            == org_name@;
    proof {
        assert(store.modules@.take(0) =~= Seq::<Model>::empty());
    }
    while i < store.modules.len()
        invariant
            i <= store.modules.len(),
            store.wf(),
            wanted == |m: Model| m.technical_name@ == technical_name@ && m.version_odoo == *version_odoo
            && gh_repository::org_name_of(store.repositories@, m.gh_repository_id.0)
            == org_name@,
            r@ == chosen(store.modules@.take(i as int), wanted),
        decreases store.modules.len() - i,
    {
        proof {
            assert(store.modules@.take(i + 1).drop_last() =~= store.modules@.take(i as int));
            assert(store.modules@.take(i + 1).last() == store.modules@[i as int]);
        }
        if store.modules[i].version_odoo == *version_odoo && same_text(
            store.modules[i].technical_name.as_str(),
            technical_name,
        ) && same_text(organization_of(store, i).as_str(), org_name) {
            r.push(store.modules[i].duplicate());
        }
        i += 1;
    }
    proof {
        assert(store.modules@.take(store.modules@.len() as int) =~= store.modules@);
    }
    r
}

/// The modules named `technical_name` in the bucket `version_odoo`, in the
/// repository `repo_name` of the organization `org_name`.
pub fn get_by_technical_name_odoo_version_organization_name_repository_name(store: &Store, technical_name: &str, version_odoo: &u8, org_name: &str, repo_name: &str) -> (r: Vec<Model>)
    requires
        store.wf(),
    ensures
        r@ == chosen(store.modules@, |m: Model| m.technical_name@ == technical_name@ && m.version_odoo == *version_odoo
            && m.gh_repository_id.1@ == repo_name@ && gh_repository::org_name_of(
            store.repositories@,
            m.gh_repository_id.0,
        ) == org_name@),
{
    let mut r: Vec<Model> = Vec::new();
    let mut i: usize = 0;
    let ghost wanted = |m: Model| m.technical_name@ == technical_name@ && m.version_odoo == *version_odoo
            && m.gh_repository_id.1@ == repo_name@ && gh_repository::org_name_of(
            store.repositories@,
            m.gh_repository_id.0,
        ) == org_name@;
    proof {
        assert(store.modules@.take(0) =~= Seq::<Model>::empty());
    }
    while i < store.modules.len()
        invariant
            i <= store.modules.len(),
            store.wf(),
            wanted == |m: Model| m.technical_name@ == technical_name@ && m.version_odoo == *version_odoo
            && m.gh_repository_id.1@ == repo_name@ && gh_repository::org_name_of(
            store.repositories@,
            m.gh_repository_id.0,
        ) == org_name@,
            r@ == chosen(store.modules@.take(i as int), wanted),
        decreases store.modules.len() - i,
    {
        proof {
            assert(store.modules@.take(i + 1).drop_last() =~= store.modules@.take(i as int));
            assert(store.modules@.take(i + 1).last() == store.modules@[i as int]);
        }
        if store.modules[i].version_odoo == *version_odoo && same_text(
            store.modules[i].technical_name.as_str(),
            technical_name,
        ) && same_text(store.modules[i].gh_repository_id.1.as_str(), repo_name) && same_text(
            organization_of(store, i).as_str(),
            org_name,
        ) {
            r.push(store.modules[i].duplicate());
        }
        i += 1;
    }
    proof {
        assert(store.modules@.take(store.modules@.len() as int) =~= store.modules@);
    }
    r
}

/// The modules named `technical_name` in repositories of the organization
/// `org_name`, in whatever bucket.
pub fn get_by_technical_name_organization_name(store: &Store, technical_name: &str, org_name: &str) -> (r: Vec<Model>)
    requires
        store.wf(),
    ensures
        r@ == chosen(store.modules@, |m: Model| m.technical_name@ == technical_name@ && gh_repository::org_name_of(
            store.repositories@,
            m.gh_repository_id.0,
        ) == org_name@),
{
    let mut r: Vec<Model> = Vec::new();
    let mut i: usize = 0;
    let ghost wanted = |m: Model| m.technical_name@ == technical_name@ && gh_repository::org_name_of(
            store.repositories@,
            m.gh_repository_id.0,
        ) == org_name@;
    proof {
        assert(store.modules@.take(0) =~= Seq::<Model>::empty());
    }
    while i < store.modules.len()
        invariant
            i <= store.modules.len(),
            store.wf(),
            wanted == |m: Model| m.technical_name@ == technical_name@ && gh_repository::org_name_of(
            store.repositories@,
            m.gh_repository_id.0,
        ) == org_name@,
            r@ == chosen(store.modules@.take(i as int), wanted),
        decreases store.modules.len() - i,
    {
        proof {
            assert(store.modules@.take(i + 1).drop_last() =~= store.modules@.take(i as int));
            assert(store.modules@.take(i + 1).last() == store.modules@[i as int]);
        }
        if same_text(store.modules[i].technical_name.as_str(), technical_name) && same_text(
            organization_of(store, i).as_str(),
            org_name,
        ) {
            r.push(store.modules[i].duplicate());
        }
        i += 1;
    }
    proof {
        assert(store.modules@.take(store.modules@.len() as int) =~= store.modules@);
    }
    r
}

/// Whether `info` tells of the module `m`, which belongs to the organization
/// `organization`.
pub open spec fn tells_of(info: ModuleInfo, m: Model, organization: Seq<char>) -> bool {
    &&& info.technical_name@ == m.technical_name@
    &&& info.name@ == m.name@
    &&& info.version_odoo == m.version_odoo
    &&& info.organization@ == organization
    &&& info.repository@ == m.gh_repository_id.1@
}

/// The rows named `name`, in order.
pub open spec fn with_name(rows: Seq<Model>, name: Seq<char>) -> Seq<Model> {
    chosen(rows, |m: Model| m.technical_name@ == name)
}

/// The modules named `technical_name`, each with its bucket, its
/// organization and its repository.
pub fn get_info(store: &Store, technical_name: &str) -> (r: Vec<ModuleInfo>)
    requires
        store.wf(),
    ensures
        r@.len() == with_name(store.modules@, technical_name@).len(),
        forall|k: int|
            0 <= k < r@.len() ==> tells_of(
                #[trigger] r@[k],
                with_name(store.modules@, technical_name@)[k],
                gh_repository::org_name_of(
                    store.repositories@,
                    with_name(store.modules@, technical_name@)[k].gh_repository_id.0,
                ),
            ),
{
    let mut r: Vec<ModuleInfo> = Vec::new();
    let mut i: usize = 0;
    let ghost wanted = |m: Model| m.technical_name@ == technical_name@;
    proof {
        assert(store.modules@.take(0) =~= Seq::<Model>::empty());
    }
    while i < store.modules.len()
        invariant
            i <= store.modules.len(),
            store.wf(),
            wanted == |m: Model| m.technical_name@ == technical_name@,
            r@.len() == chosen(store.modules@.take(i as int), wanted).len(),
            forall|k: int|
                0 <= k < r@.len() ==> tells_of(
                    #[trigger] r@[k],
                    chosen(store.modules@.take(i as int), wanted)[k],
                    gh_repository::org_name_of(
                        store.repositories@,
                        chosen(store.modules@.take(i as int), wanted)[k].gh_repository_id.0,
                    ),
                ),
        decreases store.modules.len() - i,
    {
        proof {
            assert(store.modules@.take(i + 1).drop_last() =~= store.modules@.take(i as int));
            assert(store.modules@.take(i + 1).last() == store.modules@[i as int]);
        }
        if same_text(store.modules[i].technical_name.as_str(), technical_name) {
            let ghost before = r@;
            r.push(
                ModuleInfo {
                    technical_name: store.modules[i].technical_name.clone(),
                    name: store.modules[i].name.clone(),
                    version_odoo: store.modules[i].version_odoo,
                    organization: organization_of(store, i),
                    repository: store.modules[i].gh_repository_id.1.clone(),
                },
            );
            proof {
                assert forall|k: int| 0 <= k < before.len() implies r@[k] == before[k] by {}
            }
        }
        i += 1;
    }
    proof {
        assert(store.modules@.take(store.modules@.len() as int) =~= store.modules@);
    }
    r
}

/// How many of `rows` belong to the bucket `version_odoo`.
pub open spec fn modules_in(rows: Seq<Model>, version_odoo: u8) -> nat
    decreases rows.len(),
{
    if rows.len() == 0 {
        0
    } else {
        modules_in(rows.drop_last(), version_odoo) + if rows.last().version_odoo
            == version_odoo {
            1nat
        } else {
            0nat
        }
    }
}

/// `n`, or the greatest number of thirty-two bits where `n` is greater.
pub open spec fn capped(n: nat) -> u32 {
    if n > u32::MAX {
        u32::MAX
    } else {
        n as u32
    }
}

/// How many modules the bucket `version_odoo` has, at most the greatest
/// number of thirty-two bits.
pub fn count_in(store: &Store, version_odoo: u8) -> (r: u32)
    ensures
        r == capped(modules_in(store.modules@, version_odoo)),
{
    let mut r: u32 = 0;
    let mut i: usize = 0;
    proof {
        assert(store.modules@.take(0) =~= Seq::<Model>::empty());
    }
    while i < store.modules.len()
        invariant
            i <= store.modules.len(),
            r == capped(modules_in(store.modules@.take(i as int), version_odoo)),
        decreases store.modules.len() - i,
    {
        proof {
            assert(store.modules@.take(i + 1).drop_last() =~= store.modules@.take(i as int));
            assert(store.modules@.take(i + 1).last() == store.modules@[i as int]);
        }
        if store.modules[i].version_odoo == version_odoo && r < u32::MAX {
            r += 1;
        }
        i += 1;
    }
    proof {
        assert(store.modules@.take(store.modules@.len() as int) =~= store.modules@);
    }
    r
}

/// How many modules each bucket has: one entry for each bucket that has
/// modules, in the order of the buckets.
pub fn count(store: &Store) -> (r: Vec<ModuleCountInfo>)
    ensures
        forall|k: int|
            0 <= k < r@.len() ==> (#[trigger] r@[k]).count > 0 && r@[k].count == capped(
                modules_in(store.modules@, r@[k].version_odoo),
            ),
        forall|a: int, b: int|
            0 <= a < b < r@.len() ==> (#[trigger] r@[a]).version_odoo < (
            #[trigger] r@[b]).version_odoo,
        forall|v: u8|
            modules_in(store.modules@, v) > 0 ==> exists|k: int|
                0 <= k < r@.len() && (#[trigger] r@[k]).version_odoo == v,
{
    let mut r: Vec<ModuleCountInfo> = Vec::new();
    let mut v: u16 = 0;
    while v < 256
        invariant
            v <= 256,
            forall|k: int|
                0 <= k < r@.len() ==> (#[trigger] r@[k]).count > 0 && r@[k].count == capped(
                    modules_in(store.modules@, r@[k].version_odoo),
                ) && r@[k].version_odoo < v,
            forall|a: int, b: int|
                0 <= a < b < r@.len() ==> (#[trigger] r@[a]).version_odoo < (
                #[trigger] r@[b]).version_odoo,
            forall|w: u8|
                w < v && modules_in(store.modules@, w) > 0 ==> exists|k: int|
                    0 <= k < r@.len() && (#[trigger] r@[k]).version_odoo == w,
        decreases 256 - v,
    {
        let version_odoo = v as u8;
        let n = count_in(store, version_odoo);
        if n > 0 {
            let ghost before = r@;
            r.push(ModuleCountInfo { count: n, version_odoo });
            proof {
                assert forall|k: int| 0 <= k < before.len() implies r@[k] == before[k] by {}
                assert forall|w: u8|
                    w < v + 1 && modules_in(store.modules@, w) > 0 implies exists|k: int|
                    0 <= k < r@.len() && (#[trigger] r@[k]).version_odoo == w by {
                    if w < v {
                        let k = choose|k: int|
                            0 <= k < before.len() && (#[trigger] before[k]).version_odoo == w;
                        assert(r@[k].version_odoo == w);
                    } else {
                        assert(r@[before.len() as int].version_odoo == w);
                    }
                }
            }
        }
        v += 1;
    }
    r
}

/// The buckets that have modules, the greatest first.
pub fn get_odoo_versions(store: &Store) -> (r: Vec<u8>)
    ensures
        forall|a: int, b: int| 0 <= a < b < r@.len() ==> r@[a] > r@[b],
        forall|v: u8| r@.contains(v) <==> modules_in(store.modules@, v) > 0,
{
    let mut r: Vec<u8> = Vec::new();
    let mut left: u16 = 256;
    while left > 0
        invariant
            left <= 256,
            forall|a: int, b: int| 0 <= a < b < r@.len() ==> r@[a] > r@[b],
            forall|k: int| 0 <= k < r@.len() ==> r@[k] >= left,
            forall|v: u8| r@.contains(v) <==> v >= left && modules_in(store.modules@, v) > 0,
        decreases left,
    {
        left -= 1;
        let version_odoo = left as u8;
        if count_in(store, version_odoo) > 0 {
            let ghost before = r@;
            r.push(version_odoo);
            proof {
                assert forall|k: int| 0 <= k < before.len() implies r@[k] == before[k] by {}
                assert(r@[before.len() as int] == version_odoo);
                assert forall|v: u8| r@.contains(v) <==> v >= left && modules_in(
                    store.modules@,
                    v,
                ) > 0 by {
                    if r@.contains(v) {
                        let k = choose|k: int| 0 <= k < r@.len() && r@[k] == v;
                        if k < before.len() {
                            assert(before.contains(v));
                        }
                    }
                    if before.contains(v) {
                        let k = choose|k: int| 0 <= k < before.len() && before[k] == v;
                        assert(r@[k] == v);
                    }
                }
            }
        }
    }
    r
}

/// Whether the module at `j` is the first one named `name`.
pub open spec fn is_first_named(rows: Seq<Model>, j: int, name: Seq<char>) -> bool {
    &&& 0 <= j < rows.len()
    &&& rows[j].technical_name@ == name
    &&& forall|w: int| 0 <= w < j ==> (#[trigger] rows[w]).technical_name@ != name
}

/// Whether a module is named `name`.
pub open spec fn is_named(rows: Seq<Model>, name: Seq<char>) -> bool {
    exists|j: int| 0 <= j < rows.len() && (#[trigger] rows[j]).technical_name@ == name
}

/// Whether `info` gives the repository of the first module of its name.
pub open spec fn locates(info: ModuleRepositoryInfo, rows: Seq<Model>) -> bool {
    exists|j: int|
        #[trigger] is_first_named(rows, j, info.technical_name@) && rows[j].gh_repository_id.1@
            == info.repository_name@
}

/// The names that `infos` are about.
pub open spec fn located(infos: Seq<ModuleRepositoryInfo>) -> Seq<Seq<char>> {
    Seq::new(infos.len(), |i: int| infos[i].technical_name@)
}

fn first_named(store: &Store, name: &str) -> (r: Option<usize>)
    ensures
        r is Some <==> is_named(store.modules@, name@),
        r matches Some(j) ==> is_first_named(store.modules@, j as int, name@),
{
    let mut j: usize = 0;
    while j < store.modules.len()
        invariant
            j <= store.modules.len(),
            forall|w: int| 0 <= w < j ==> (#[trigger] store.modules@[w]).technical_name@ != name@,
        decreases store.modules.len() - j,
    {
        if same_text(store.modules[j].technical_name.as_str(), name) {
            return Some(j);
        }
        j += 1;
    }
    None
}

fn is_located(infos: &Vec<ModuleRepositoryInfo>, name: &str) -> (r: bool)
    ensures
        r == located(infos@).contains(name@),
{
    let mut k: usize = 0;
    while k < infos.len()
        invariant
            k <= infos.len(),
            forall|w: int| 0 <= w < k ==> located(infos@)[w] != name@,
        decreases infos.len() - k,
    {
        assert(located(infos@)[k as int] == infos@[k as int].technical_name@);
        if same_text(infos[k].technical_name.as_str(), name) {
            return true;
        }
        k += 1;
    }
    false
}

/// The repository of each module that `modules` names and the catalog has:
/// one entry for each such name, in the order in which `modules` first names
/// them, with the repository of the first module of that name.
pub fn get_module_repository(store: &Store, modules: &[String]) -> (r: Vec<ModuleRepositoryInfo>)
    ensures
        forall|k: int| 0 <= k < r@.len() ==> locates(#[trigger] r@[k], store.modules@),
        distinct(located(r@)),
        forall|n: Seq<char>|
            located(r@).contains(n) <==> texts(modules@).contains(n) && is_named(
                store.modules@,
                n,
            ),
{
    let mut r: Vec<ModuleRepositoryInfo> = Vec::new();
    let ghost asked = texts(modules@);
    let mut i: usize = 0;
    proof {
        assert(asked.take(0) =~= Seq::<Seq<char>>::empty());
    }
    while i < modules.len()
        invariant
            i <= modules.len(),
            asked == texts(modules@),
            forall|k: int| 0 <= k < r@.len() ==> locates(#[trigger] r@[k], store.modules@),
            distinct(located(r@)),
            forall|n: Seq<char>|
                located(r@).contains(n) <==> asked.take(i as int).contains(n) && is_named(
                    store.modules@,
                    n,
                ),
        decreases modules.len() - i,
    {
        let ghost before = r@;
        let ghost name = asked[i as int];
        assert(name == modules@[i as int]@);
        match first_named(store, modules[i].as_str()) {
            Some(j) => {
                if !is_located(&r, modules[i].as_str()) {
                    r.push(
                        ModuleRepositoryInfo {
                            technical_name: modules[i].clone(),
                            repository_name: store.modules[j].gh_repository_id.1.clone(),
                        },
                    );
                    proof {
                        assert forall|w: int| 0 <= w < before.len() implies r@[w] == before[w] by {}
                        assert(located(r@) =~= located(before).push(name));
                        let last = r@[before.len() as int];
                        assert(last.technical_name@ == name);
                        assert(last.repository_name@ == store.modules@[j as int].gh_repository_id.1@);
                        assert(is_first_named(store.modules@, j as int, last.technical_name@));
                        assert(locates(last, store.modules@));
                        assert forall|a: int, b: int| 0 <= a < b < located(r@).len() implies located(
                            r@,
                        )[a] != located(r@)[b] by {
                            if b == before.len() {
                                assert(located(before)[a] == located(r@)[a]);
                            } else {
                                assert(located(before)[a] == located(r@)[a] && located(before)[b]
                                    == located(r@)[b]);
                            }
                        }
                    }
                }
            },
            None => {},
        }
        proof {
            assert forall|n: Seq<char>|
                located(r@).contains(n) <==> asked.take(i + 1).contains(n) && is_named(
                    store.modules@,
                    n,
                ) by {
                crate::names::lemma_take_contains_step(asked, i as int, n);
                if located(before).contains(n) {
                    let k = choose|k: int| 0 <= k < located(before).len() && located(before)[k] == n;
                    assert(located(r@)[k] == n);
                }
                if located(r@).contains(n) && !located(before).contains(n) {
                    let k = choose|k: int| 0 <= k < located(r@).len() && located(r@)[k] == n;
                    if k < before.len() {
                        assert(located(before)[k] == n);
                    }
                }
                if n == name && is_named(store.modules@, n) && !located(before).contains(n) {
                    assert(located(r@)[before.len() as int] == n);
                }
            }
        }
        i += 1;
    }
    proof {
        assert(asked.take(modules@.len() as int) =~= asked);
    }
    r
}

} // verus!
