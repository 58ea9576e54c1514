//! Repositories: each belongs to one organization, and its name is kept once
//! per organization.

use crate::models::module;
use crate::models::gh_organization;
use crate::models::store::Store;
use crate::models::system_event::{
    dated,     extends, lemma_said_after_push, lemma_said_nothing, new_repository_message, one_each,
    register_new_gh_repository, said, EventKind,
};
use crate::text::same_text;
use vstd::prelude::*;

verus! {

/// A repository. `gh_organization_id` is the identity of its organization
/// and a copy of that organization's name.
#[derive(Debug)]
pub struct Model {
    pub id: i64,
    pub name: String,
    pub gh_organization_id: (i64, String),
    pub create_date: String,
    pub update_date: String,
}

/// How many modules of one bucket a repository of one organization holds.
#[derive(Debug)]
pub struct RepositoryInfo {
    pub name: String,
    pub organization: String,
    pub num_modules: u16,
    pub version_odoo: u8,
}

impl Model {
    /// A copy of the row.
    pub fn duplicate(&self) -> (r: Model)
        ensures
            r == *self,
    {
        Model {
            id: self.id,
            name: self.name.clone(),
            gh_organization_id: (self.gh_organization_id.0, self.gh_organization_id.1.clone()),
            create_date: self.create_date.clone(),
            update_date: self.update_date.clone(),
        }
    }
}

/// Identities lie in `1..=last_id`.
pub open spec fn ids_below(rows: Seq<Model>, last_id: i64) -> bool {
    forall|i: int| 0 <= i < rows.len() ==> 0 < (#[trigger] rows[i]).id <= last_id
}

/// No identity occurs twice, and no name twice under one organization.
pub open spec fn well_keyed(rows: Seq<Model>) -> bool {
    &&& forall|i: int, j: int|
        0 <= i < j < rows.len() ==> (#[trigger] rows[i]).id != (#[trigger] rows[j]).id
    &&& forall|i: int, j: int|
        0 <= i < j < rows.len() ==> !((#[trigger] rows[i]).name@ == (#[trigger] rows[j]).name@
            && rows[i].gh_organization_id.0 == rows[j].gh_organization_id.0)
}

/// Every repository's organization is in `organizations`, under the name that
/// the repository holds of it.
pub open spec fn owned(rows: Seq<Model>, organizations: Seq<gh_organization::Model>) -> bool {
    forall|i: int|
        0 <= i < rows.len() ==> gh_organization::has(
            organizations,
            (#[trigger] rows[i]).gh_organization_id.0,
            rows[i].gh_organization_id.1@,
        )
}

/// Whether a row of `rows` has the identity `id`.
pub open spec fn has_id(rows: Seq<Model>, id: i64) -> bool {
    exists|i: int| 0 <= i < rows.len() && (#[trigger] rows[i]).id == id
}

/// Whether a row of `rows` has the identity `id` and the name `name`.
pub open spec fn has(rows: Seq<Model>, id: i64, name: Seq<char>) -> bool {
    exists|i: int| 0 <= i < rows.len() && (#[trigger] rows[i]).id == id && rows[i].name@ == name
}

/// A row that `rows` has, it still has after one more row.
pub proof fn lemma_has_after_push(rows: Seq<Model>, r: Model, id: i64, name: Seq<char>)
    requires
        has(rows, id, name),
    ensures
        has(rows.push(r), id, name),
{
    let i = choose|i: int| 0 <= i < rows.len() && (#[trigger] rows[i]).id == id && rows[i].name@ == name;
    assert(rows.push(r)[i] == rows[i]);
}

/// A row of `rows` is had by its identity and name.
pub proof fn lemma_has_row(rows: Seq<Model>, i: int)
    requires
        0 <= i < rows.len(),
    ensures
        has(rows, rows[i].id, rows[i].name@),
        has_id(rows, rows[i].id),
{
}

/// Whether a row of `rows` has the identity `id`, is named `name` and holds
/// `org_name` as the name of its organization.
pub open spec fn has_in(rows: Seq<Model>, id: i64, name: Seq<char>, org_name: Seq<char>) -> bool {
    exists|i: int|
        0 <= i < rows.len() && (#[trigger] rows[i]).id == id && rows[i].name@ == name
            && rows[i].gh_organization_id.1@ == org_name
}

/// Whether a row of `rows` is named `name` and holds `org_name` as the name
/// of its organization.
pub open spec fn has_named(rows: Seq<Model>, name: Seq<char>, org_name: Seq<char>) -> bool {
    exists|i: int|
        0 <= i < rows.len() && (#[trigger] rows[i]).name@ == name
            && rows[i].gh_organization_id.1@ == org_name
}

/// The identity of the organization of the repository with the identity
/// `id`.
pub open spec fn org_id_of(rows: Seq<Model>, id: i64) -> i64 {
    let i = choose|i: int| 0 <= i < rows.len() && (#[trigger] rows[i]).id == id;
    rows[i].gh_organization_id.0
}

/// The organization of a row's identity is the row's organization.
pub proof fn lemma_org_id_of(rows: Seq<Model>, i: int)
    requires
        well_keyed(rows),
        0 <= i < rows.len(),
    ensures
        org_id_of(rows, rows[i].id) == rows[i].gh_organization_id.0,
{
    let k = choose|k: int| 0 <= k < rows.len() && (#[trigger] rows[k]).id == rows[i].id;
    if k < i {
        assert(rows[k].id != rows[i].id);
    } else if i < k {
        assert(rows[i].id != rows[k].id);
    }
}

/// The name that the repository with the identity `id` holds of its
/// organization.
pub open spec fn org_name_of(rows: Seq<Model>, id: i64) -> Seq<char> {
    let i = choose|i: int| 0 <= i < rows.len() && (#[trigger] rows[i]).id == id;
    rows[i].gh_organization_id.1@
}

/// The organization of a row's identity is the row's organization.
pub proof fn lemma_org_name_of(rows: Seq<Model>, i: int)
    requires
        well_keyed(rows),
        0 <= i < rows.len(),
    ensures
        org_name_of(rows, rows[i].id) == rows[i].gh_organization_id.1@,
{
    let k = choose|k: int| 0 <= k < rows.len() && (#[trigger] rows[k]).id == rows[i].id;
    if k < i {
        assert(rows[k].id != rows[i].id);
    } else if i < k {
        assert(rows[i].id != rows[k].id);
    }
}

/// Whether a row of `rows` is named `name` under the organization
/// `gh_org_id`.
pub open spec fn has_name(rows: Seq<Model>, gh_org_id: i64, name: Seq<char>) -> bool {
    exists|i: int|
        0 <= i < rows.len() && (#[trigger] rows[i]).name@ == name && rows[i].gh_organization_id.0
            == gh_org_id
}

/// The rows stay owned after one more row in `organizations`.
pub proof fn lemma_owned_after_push(rows: Seq<Model>, organizations: Seq<gh_organization::Model>, r: gh_organization::Model)
    requires
        owned(rows, organizations),
    ensures
        owned(rows, organizations.push(r)),
{
    assert forall|i: int| 0 <= i < rows.len() implies gh_organization::has(
        organizations.push(r),
        (#[trigger] rows[i]).gh_organization_id.0,
        rows[i].gh_organization_id.1@,
    ) by {
        gh_organization::lemma_has_after_push(organizations, r, rows[i].gh_organization_id.0, rows[i].gh_organization_id.1@);
    }
}

/// The repository named `name` of the organization `gh_org_id`.
pub fn get_by_name(store: &Store, gh_org_id: &i64, name: &str) -> (r: Option<Model>)
    ensures
        r is Some <==> has_name(store.repositories@, *gh_org_id, name@),
        r matches Some(m) ==> store.repositories@.contains(m) && m.name@ == name@
            && m.gh_organization_id.0 == *gh_org_id,
{
    let mut i: usize = 0;
    while i < store.repositories.len()
        invariant
            i <= store.repositories.len(),
            forall|k: int|
                0 <= k < i ==> !((#[trigger] store.repositories@[k]).name@ == name@
                    && store.repositories@[k].gh_organization_id.0 == *gh_org_id),
        decreases store.repositories.len() - i,
    {
        if store.repositories[i].gh_organization_id.0 == *gh_org_id && same_text(
            store.repositories[i].name.as_str(),
            name,
        ) {
            return Some(store.repositories[i].duplicate());
        }
        i += 1;
    }
    None
}

/// The repository with the identity `id`.
pub fn get_by_id(store: &Store, id: &i64) -> (r: Option<Model>)
    ensures
        r is Some <==> has_id(store.repositories@, *id),
        r matches Some(m) ==> store.repositories@.contains(m) && m.id == *id,
{
    let mut i: usize = 0;
    while i < store.repositories.len()
        invariant
            i <= store.repositories.len(),
            forall|k: int| 0 <= k < i ==> (#[trigger] store.repositories@[k]).id != *id,
        decreases store.repositories.len() - i,
    {
        if store.repositories[i].id == *id {
            return Some(store.repositories[i].duplicate());
        }
        i += 1;
    }
    None
}

/// The repository named `name` of the organization `gh_org_id`, entered
/// first, with `now` as its dates, where the catalog has none; that is
/// reported.
pub fn add(store: &mut Store, gh_org_id: &i64, name: &str, now: &str) -> (r: Model)
    requires
        old(store).wf(),
        old(store).last_id < i64::MAX,
        gh_organization::has_id(old(store).organizations@, *gh_org_id),
    ensures
        final(store).wf(),
        r.name@ == name@,
        r.gh_organization_id.0 == *gh_org_id,
        final(store).repositories@.contains(r),
        extends(final(store).system_events@, old(store).system_events@),
        dated(final(store).system_events@, old(store).system_events@, now@),
        has_name(old(store).repositories@, *gh_org_id, name@) ==> *final(store) == *old(store),
        !has_name(old(store).repositories@, *gh_org_id, name@) ==> {
            &&& r.id == old(store).last_id + 1
            &&& r.create_date@ == now@
            &&& r.update_date@ == now@
            &&& final(store).repositories@ == old(store).repositories@.push(r)
            &&& said(final(store).system_events@, old(store).system_events@) == one_each(
                EventKind::NewRepository,
                seq![name@],
                r.gh_organization_id.1@,
                0,
            )
            &&& final(store).system_events@.last().message@ == new_repository_message(
                r.gh_organization_id.1@,
                name@,
            )
            &&& final(store).system_events@.last().date@ == now@
            &&& *final(store) == (Store {
                repositories: final(store).repositories,
                system_events: final(store).system_events,
                last_id: r.id,
                ..*old(store)
            })
        },
{
    proof {
        lemma_said_nothing(store.system_events@);
    }
    match get_by_name(store, gh_org_id, name) {
        Some(found) => found,
        None => {
            let org = gh_organization::get_by_id(store, gh_org_id).unwrap();
            let id = store.fresh_id();
            let row = Model {
                id,
                name: name.to_owned(),
                gh_organization_id: (org.id, org.name),
                create_date: now.to_owned(),
                update_date: now.to_owned(),
            };
            let r = row.duplicate();
            store.repositories.push(row);
            assert(store.repositories@[store.repositories@.len() - 1] == r);
            proof {
                module::lemma_housed_after_push(store.modules@, old(store).repositories@, r);
                let k = choose|k: int|
                    0 <= k < store.organizations@.len() && store.organizations@[k] == org;
                gh_organization::lemma_has_row(store.organizations@, k);
            }
            let e = register_new_gh_repository(store, r.gh_organization_id.1.as_str(), name, now);
            proof {
                lemma_said_after_push(old(store).system_events@, old(store).system_events@, e);
                assert(said(store.system_events@, old(store).system_events@) =~= one_each(
                    EventKind::NewRepository,
                    seq![name@],
                    r.gh_organization_id.1@,
                    0,
                ));
            }
            r
        },
    }
}

/// How many of the modules `rows` belong to the repository `repo_id` and the
/// bucket `v`.
pub open spec fn modules_of(rows: Seq<module::Model>, repo_id: i64, v: u8) -> nat
    decreases rows.len(),
{
    if rows.len() == 0 {
        0
    } else {
        modules_of(rows.drop_last(), repo_id, v) + if rows.last().gh_repository_id.0 == repo_id
            && rows.last().version_odoo == v {
            1nat
        } else {
            0nat
        }
    }
}

/// `n`, or the greatest number of sixteen bits where `n` is greater.
pub open spec fn capped16(n: nat) -> u16 {
    if n > u16::MAX {
        u16::MAX
    } else {
        n as u16
    }
}

fn count_modules_of(store: &Store, repo_id: i64, v: u8) -> (r: u16)
    ensures
        r == capped16(modules_of(store.modules@, repo_id, v)),
{
    let mut r: u16 = 0;
    let mut k: usize = 0;
    proof {
        assert(store.modules@.take(0) =~= Seq::<module::Model>::empty());
    }
    while k < store.modules.len()
        invariant
            k <= store.modules.len(),
            r == capped16(modules_of(store.modules@.take(k as int), repo_id, v)),
        decreases store.modules.len() - k,
    {
        proof {
            assert(store.modules@.take(k + 1).drop_last() =~= store.modules@.take(k as int));
            assert(store.modules@.take(k + 1).last() == store.modules@[k as int]);
        }
        if store.modules[k].gh_repository_id.0 == repo_id && store.modules[k].version_odoo == v
            && r < u16::MAX {
            r += 1;
        }
        k += 1;
    }
    proof {
        assert(store.modules@.take(store.modules@.len() as int) =~= store.modules@);
    }
    r
}

/// Whether `info` gives the number of modules that the repository at `i`
/// has in the bucket of `info`, which is more than none.
pub open spec fn counts_for(info: RepositoryInfo, store: Store, i: int) -> bool {
    &&& 0 <= i < store.repositories@.len()
    &&& info.name@ == store.repositories@[i].name@
    &&& info.organization@ == store.repositories@[i].gh_organization_id.1@
    &&& info.num_modules == capped16(
        modules_of(store.modules@, store.repositories@[i].id, info.version_odoo),
    )
    &&& info.num_modules > 0
}

/// Whether `info` gives the number of modules that a repository has in the
/// bucket of `info`, which is more than none.
pub open spec fn is_count(info: RepositoryInfo, store: Store) -> bool {
    exists|i: int| #[trigger] counts_for(info, store, i)
}

/// Whether `infos` has the count of the repository at `i` in the bucket `v`.
pub open spec fn has_count_for(infos: Seq<RepositoryInfo>, store: Store, i: int, v: u8) -> bool {
    exists|k: int|
        0 <= k < infos.len() && (#[trigger] infos[k]).version_odoo == v && infos[k].organization@
            == store.repositories@[i].gh_organization_id.1@
}

/// How many modules the repositories named `repo_name` have in each bucket:
/// one entry for each such repository and each bucket in which it has
/// modules, repository by repository and bucket by bucket.
pub fn get_info_by_name(store: &Store, repo_name: &str) -> (r: Vec<RepositoryInfo>)
    ensures
        forall|k: int|
            0 <= k < r@.len() ==> is_count(#[trigger] r@[k], *store) && r@[k].name@ == repo_name@,
        forall|i: int, v: u8|
            0 <= i < store.repositories@.len() && store.repositories@[i].name@ == repo_name@
                && #[trigger] modules_of(store.modules@, store.repositories@[i].id, v) > 0
                ==> has_count_for(r@, *store, i, v),
{
    let mut r: Vec<RepositoryInfo> = Vec::new();
    let mut i: usize = 0;
    while i < store.repositories.len()
        invariant
            i <= store.repositories.len(),
            forall|k: int|
                0 <= k < r@.len() ==> is_count(#[trigger] r@[k], *store) && r@[k].name@
                    == repo_name@,
            forall|j: int, v: u8|
                0 <= j < i && store.repositories@[j].name@ == repo_name@ && #[trigger] modules_of(
                    store.modules@,
                    store.repositories@[j].id,
                    v,
                ) > 0 ==> has_count_for(r@, *store, j, v),
        decreases store.repositories.len() - i,
    {
        if same_text(store.repositories[i].name.as_str(), repo_name) {
            let mut v: u16 = 0;
            while v < 256
                invariant
                    v <= 256,
                    i < store.repositories.len(),
                    store.repositories@[i as int].name@ == repo_name@,
                    forall|k: int|
                        0 <= k < r@.len() ==> is_count(#[trigger] r@[k], *store) && r@[k].name@
                            == repo_name@,
                    forall|j: int, w: u8|
                        0 <= j < i && store.repositories@[j].name@ == repo_name@
                            && #[trigger] modules_of(
                            store.modules@,
                            store.repositories@[j].id,
                            w,
                        ) > 0 ==> has_count_for(r@, *store, j, w),
                    forall|w: u8|
                        w < v && #[trigger] modules_of(
                            store.modules@,
                            store.repositories@[i as int].id,
                            w,
                        ) > 0 ==> has_count_for(r@, *store, i as int, w),
                decreases 256 - v,
            {
                let version_odoo = v as u8;
                let n = count_modules_of(store, store.repositories[i].id, version_odoo);
                if n > 0 {
                    let ghost before = r@;
                    r.push(
                        RepositoryInfo {
                            name: store.repositories[i].name.clone(),
                            organization: store.repositories[i].gh_organization_id.1.clone(),
                            num_modules: n,
                            version_odoo,
                        },
                    );
                    proof {
                        let last = before.len() as int;
                        assert forall|k: int| 0 <= k < before.len() implies r@[k] == before[k] by {}
                        assert(counts_for(r@[last], *store, i as int));
                        assert forall|j: int, w: u8| #[trigger]
                            has_count_for(before, *store, j, w) implies has_count_for(
                            r@,
                            *store,
                            j,
                            w,
                        ) by {
                            let k = choose|k: int|
                                0 <= k < before.len() && (#[trigger] before[k]).version_odoo == w
                                    && before[k].organization@
                                    == store.repositories@[j].gh_organization_id.1@;
                            assert(r@[k] == before[k]);
                        }
                        assert(has_count_for(r@, *store, i as int, version_odoo)) by {
                            assert(r@[last].version_odoo == version_odoo);
                        }
                        assert forall|j: int, w: u8|
                            0 <= j < i && store.repositories@[j].name@ == repo_name@
                                && #[trigger] modules_of(
                                store.modules@,
                                store.repositories@[j].id,
                                w,
                            ) > 0 implies has_count_for(r@, *store, j, w) by {
                            assert(has_count_for(before, *store, j, w));
                        }
                        assert forall|w: u8|
                            w < v + 1 && #[trigger] modules_of(
                                store.modules@,
                                store.repositories@[i as int].id,
                                w,
                            ) > 0 implies has_count_for(r@, *store, i as int, w) by {
                            if w < v {
                                assert(has_count_for(before, *store, i as int, w));
                            }
                        }
                    }
                }
                v += 1;
            }
        }
        i += 1;
    }
    r
}

} // verus!
