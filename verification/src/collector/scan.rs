//! One scan of a bucket: each scraped module is taken into the catalog under
//! the bucket that is scanned, the advisories on its new packages are
//! recorded, and what the scan no longer found is purged at its end.

use crate::collector::reconciler::{
    dependencies_match, ids_needed, needs_identities, reconcile, reconciled,
    said_of_dependencies, Reconciled,
};
use crate::models::dependency_module;
use crate::models::dependency_osv;
use crate::models::gh_repository;
use crate::models::module;
use crate::models::module::{cascaded, is_stale, purged, ManifestInfo};
use crate::models::store::{Store, StoreError};
use crate::models::system_event;
use crate::models::system_event::{
    dated, extends, lemma_said_after_push, logged, said, EventKind,
};
use crate::text::{join_from, join_with, same_text, texts};
use crate::version::{odoo_version_text, odoo_version_u8_to_string};
use std::collections::HashMap;
use vstd::prelude::*;
use vstd::string::*;

verus! {

broadcast use vstd::std_specs::hash::group_hash_axioms;

/// The descriptor as the scan of the bucket `version_odoo` takes it: under
/// that bucket, whatever bucket it declares.
pub open spec fn forced(descriptor: ManifestInfo, version_odoo: u8) -> ManifestInfo {
    ManifestInfo { version_odoo, ..descriptor }
}

/// Whether the descriptor is misfiled in a scan of the bucket
/// `version_odoo`: it can be installed and declares another bucket.
pub open spec fn is_misfiled(descriptor: ManifestInfo, version_odoo: u8) -> bool {
    descriptor.version_odoo != version_odoo && descriptor.installable
}

/// Whether `after` is `before` with the report that the module `m`, found
/// in a scan of the bucket `version_odoo`, declares the bucket `declared`.
pub open spec fn reported_misfiled(
    before: Store,
    after: Store,
    m: module::Model,
    declared: u8,
    version_odoo: u8,
    now: Seq<char>,
) -> bool {
    exists|e: system_event::Model|
        {
            &&& #[trigger] logged(before, after, e)
            &&& e.reports(
                EventKind::ProblemModuleVersion,
                m.technical_name@,
                odoo_version_text(declared),
                m.id,
            )
            &&& e.date@ == now
            &&& e.message@ == system_event::problem_module_version_message(
                m.technical_name@,
                m.name@,
                m.gh_repository_id.1@,
                odoo_version_text(declared),
                odoo_version_text(version_odoo),
            )
        }
}

/// Whether `mid` and `after` are what taking the descriptor in makes of
/// `before`: `mid` is `before` reconciled with the descriptor under the
/// bucket of the scan, and `after` is `mid`, with a report where the
/// descriptor is misfiled.
pub open spec fn taken(
    before: Store,
    mid: Store,
    after: Store,
    descriptor: ManifestInfo,
    version_odoo: u8,
    now: Seq<char>,
    out: Reconciled,
) -> bool {
    let taken = forced(descriptor, version_odoo);
    &&& mid.wf()
    &&& reconciled(before, taken, mid)
    &&& module::synced(mid, taken, out.module)
    &&& dependencies_match(mid, taken, out.module.id)
    &&& module::taken_in(before.modules@, mid.modules@, taken, now, out.module)
    &&& said(mid.system_events@, before.system_events@) == module::said_by_add(
        before,
        taken,
        out.module,
    ) + said_of_dependencies(before, taken, out.module.id)
    &&& module::homed(before, mid, taken, out.module.gh_repository_id.0)
    &&& forall|o: module::Model| #[trigger]
        module::is_stored_as(before, taken, o) ==> out.module.id == o.id && module::refreshed(
            out.module,
            o,
            taken,
            now,
        )
    &&& if is_misfiled(descriptor, version_odoo) {
        reported_misfiled(mid, after, out.module, descriptor.version_odoo, version_odoo, now)
    } else {
        after == mid
    }
}

/// Takes one scraped module into the catalog in a scan of the bucket
/// `version_odoo`: reconciles it under that bucket, and reports it where it
/// can be installed and declares another bucket.
pub fn take_in(store: &mut Store, descriptor: ManifestInfo, version_odoo: &u8, now: &str) -> (r:
    Result<Reconciled, StoreError>)
    requires
        old(store).wf(),
        descriptor.wf(),
    ensures
        final(store).wf(),
        r is Err <==> needs_identities(*old(store), forced(descriptor, *version_odoo)) && old(
            store,
        ).last_id + ids_needed(descriptor) > i64::MAX,
        r matches Err(e) ==> e == StoreError::IdsExhausted && *final(store) == *old(store),
        r matches Ok(out) ==> exists|mid: Store| #[trigger]
            taken(*old(store), mid, *final(store), descriptor, *version_odoo, now@, out),
        old(store).last_id <= final(store).last_id <= old(store).last_id + ids_needed(descriptor),
        extends(final(store).system_events@, old(store).system_events@),
        dated(final(store).system_events@, old(store).system_events@, now@),
{
    let declared = descriptor.version_odoo;
    let installable = descriptor.installable;
    let mut taken_in = descriptor;
    taken_in.version_odoo = *version_odoo;
    assert(taken_in == forced(descriptor, *version_odoo));
    match reconcile(store, &taken_in, now) {
        Err(e) => Err(e),
        Ok(out) => {
            let ghost mid = *store;
            if declared != *version_odoo && installable {
                let from = odoo_version_u8_to_string(&declared);
                let to = odoo_version_u8_to_string(version_odoo);
                let e = system_event::register_problem_module_version(
                    store,
                    out.module.id,
                    out.module.technical_name.as_str(),
                    out.module.name.as_str(),
                    out.module.gh_repository_id.1.as_str(),
                    from.as_str(),
                    to.as_str(),
                    now,
                );
                assert(logged(mid, *store, e));
                proof {
                    lemma_said_after_push(
                        old(store).system_events@,
                        mid.system_events@,
                        e,
                    );
                }
            }
            assert(taken(*old(store), mid, *store, descriptor, *version_odoo, now@, out));
            Ok(out)
        },
    }
}

/// Whether `kept` lists the repository `gh_repo_id` as scanned, with or
/// without modules met in it.
pub open spec fn scanned(kept: Map<i64, Vec<i64>>, gh_repo_id: i64) -> bool {
    kept.contains_key(gh_repo_id)
}

/// The modules that `kept` holds for the repository `gh_repo_id`, in the
/// order in which they were met; none for a repository that is not listed.
pub open spec fn kept_of(kept: Map<i64, Vec<i64>>, gh_repo_id: i64) -> Seq<i64> {
    if kept.contains_key(gh_repo_id) {
        kept[gh_repo_id]@
    } else {
        Seq::<i64>::empty()
    }
}

/// Notes that the scan met the module `module_id` in the repository
/// `gh_repo_id`.
pub fn note(kept: &mut HashMap<i64, Vec<i64>>, gh_repo_id: i64, module_id: i64)
    ensures
        final(kept)@.dom() == old(kept)@.dom().insert(gh_repo_id),
        kept_of(final(kept)@, gh_repo_id) == kept_of(old(kept)@, gh_repo_id).push(module_id),
        forall|r: i64| r != gh_repo_id ==> kept_of(final(kept)@, r) == kept_of(old(kept)@, r),
{
    let mut ids = match kept.remove(&gh_repo_id) {
        Some(ids) => ids,
        None => Vec::new(),
    };
    ids.push(module_id);
    let _ = kept.insert(gh_repo_id, ids);
    assert(final(kept)@.dom() =~= old(kept)@.dom().insert(gh_repo_id));
}

/// Notes that the scan went through the repository `gh_repo_id`, whether
/// or not it met a module there.
pub fn mark(kept: &mut HashMap<i64, Vec<i64>>, gh_repo_id: i64)
    ensures
        final(kept)@.dom() == old(kept)@.dom().insert(gh_repo_id),
        forall|r: i64| kept_of(final(kept)@, r) == kept_of(old(kept)@, r),
        scanned(old(kept)@, gh_repo_id) ==> final(kept)@ == old(kept)@,
{
    if !kept.contains_key(&gh_repo_id) {
        let _ = kept.insert(gh_repo_id, Vec::new());
    }
    assert(final(kept)@.dom() =~= old(kept)@.dom().insert(gh_repo_id));
}

/// The identity of the repository `repo_name` of the organization
/// `org_name`, where the catalog has it: the first row of that name under
/// an organization of that name.
pub fn repository_id(store: &Store, org_name: &str, repo_name: &str) -> (r: Option<i64>)
    ensures
        r is Some <==> gh_repository::has_named(store.repositories@, repo_name@, org_name@),
        r matches Some(id) ==> exists|i: int|
            {
                &&& 0 <= i < store.repositories@.len()
                &&& (#[trigger] store.repositories@[i]).id == id
                &&& store.repositories@[i].name@ == repo_name@
                &&& store.repositories@[i].gh_organization_id.1@ == org_name@
                &&& forall|k: int|
                    0 <= k < i ==> !((#[trigger] store.repositories@[k]).name@ == repo_name@
                        && store.repositories@[k].gh_organization_id.1@ == org_name@)
            },
{
    let mut i: usize = 0;
    while i < store.repositories.len()
        invariant
            i <= store.repositories.len(),
            forall|k: int|
                0 <= k < i ==> !((#[trigger] store.repositories@[k]).name@ == repo_name@
                    && store.repositories@[k].gh_organization_id.1@ == org_name@),
        decreases store.repositories.len() - i,
    {
        if same_text(store.repositories[i].name.as_str(), repo_name) && same_text(
            store.repositories[i].gh_organization_id.1.as_str(),
            org_name,
        ) {
            return Some(store.repositories[i].id);
        }
        i += 1;
    }
    None
}

/// Whether the module `m` is stale after a scan of the bucket
/// `version_odoo` that kept `kept`: the scan went through its repository
/// and did not meet `m`, which is of that bucket.
pub open spec fn is_stale_after(m: module::Model, version_odoo: u8, kept: Map<i64, Vec<i64>>) -> bool {
    scanned(kept, m.gh_repository_id.0) && is_stale(
        m,
        m.gh_repository_id.0,
        version_odoo,
        kept[m.gh_repository_id.0]@,
    )
}

/// Purging in two steps cascades as purging in one does.
pub proof fn lemma_cascaded_in_turn(a: Store, b: Store, c: Store)
    requires
        cascaded(a, b),
        cascaded(b, c),
        forall|m: module::Model| b.modules@.contains(m) ==> a.modules@.contains(m),
        forall|m: module::Model| c.modules@.contains(m) ==> b.modules@.contains(m),
    ensures
        cascaded(a, c),
{
    assert forall|id: i64| module::has_id(c.modules@, id) implies module::has_id(b.modules@, id) by {
        let i = choose|i: int| 0 <= i < c.modules@.len() && (#[trigger] c.modules@[i]).id == id;
        assert(c.modules@.contains(c.modules@[i]));
        let j = choose|j: int| 0 <= j < b.modules@.len() && b.modules@[j] == c.modules@[i];
        assert(b.modules@[j].id == id);
    }
    assert forall|id: i64| module::has_id(b.modules@, id) implies module::has_id(a.modules@, id) by {
        let i = choose|i: int| 0 <= i < b.modules@.len() && (#[trigger] b.modules@[i]).id == id;
        assert(b.modules@.contains(b.modules@[i]));
        let j = choose|j: int| 0 <= j < a.modules@.len() && a.modules@[j] == b.modules@[i];
        assert(a.modules@[j].id == id);
    }
    assert forall|id: i64|
        purged(a.modules@, c.modules@, id) <==> purged(a.modules@, b.modules@, id) || purged(
            b.modules@,
            c.modules@,
            id,
        ) by {}
    assert forall|o: dependency_osv::Model|
        c.dependency_osvs@.contains(o) <==> a.dependency_osvs@.contains(o) && !(
        exists|e: dependency_module::Model|
            #[trigger] a.dependency_modules@.contains(e) && e.id == o.dependency_module_id.0
                && purged(a.modules@, c.modules@, e.module_id.0)) by {
        if exists|e: dependency_module::Model|
            #[trigger] a.dependency_modules@.contains(e) && e.id == o.dependency_module_id.0
                && purged(a.modules@, c.modules@, e.module_id.0) {
            let e = choose|e: dependency_module::Model|
                #[trigger] a.dependency_modules@.contains(e) && e.id == o.dependency_module_id.0
                    && purged(a.modules@, c.modules@, e.module_id.0);
            if !purged(a.modules@, b.modules@, e.module_id.0) {
                assert(b.dependency_modules@.contains(e));
            }
        }
        if exists|e: dependency_module::Model|
            #[trigger] b.dependency_modules@.contains(e) && e.id == o.dependency_module_id.0
                && purged(b.modules@, c.modules@, e.module_id.0) {
            let e = choose|e: dependency_module::Model|
                #[trigger] b.dependency_modules@.contains(e) && e.id == o.dependency_module_id.0
                    && purged(b.modules@, c.modules@, e.module_id.0);
            assert(a.dependency_modules@.contains(e));
        }
        if exists|e: dependency_module::Model|
            #[trigger] a.dependency_modules@.contains(e) && e.id == o.dependency_module_id.0
                && purged(a.modules@, b.modules@, e.module_id.0) {
            let e = choose|e: dependency_module::Model|
                #[trigger] a.dependency_modules@.contains(e) && e.id == o.dependency_module_id.0
                    && purged(a.modules@, b.modules@, e.module_id.0);
            assert(purged(a.modules@, c.modules@, e.module_id.0));
        }
    }
}

/// Whether the module `m` lives in one of the first `n` of the
/// repositories `repositories`.
pub open spec fn lives_before(repositories: Seq<gh_repository::Model>, m: module::Model, n: int) -> bool {
    exists|k: int|
        0 <= k < n && k < repositories.len() && (#[trigger] repositories[k]).id
            == m.gh_repository_id.0
}

/// Purges what the scan of the bucket `version_odoo` no longer found: in
/// each repository that the scan went through, every module of that bucket
/// that it did not meet goes, with its people, its edges and the records on
/// them; where it met none, every module of that bucket goes. Says how many
/// modules went.
pub fn purge_stale(store: &mut Store, kept: &HashMap<i64, Vec<i64>>, version_odoo: &u8) -> (r: usize)
    requires
        old(store).wf(),
    ensures
        final(store).wf(),
        forall|m: module::Model|
            final(store).modules@.contains(m) <==> old(store).modules@.contains(m)
                && !is_stale_after(m, *version_odoo, kept@),
        old(store).modules@.len() == final(store).modules@.len() + r,
        cascaded(*old(store), *final(store)),
        *final(store) == (Store {
            modules: final(store).modules,
            module_authors: final(store).module_authors,
            module_maintainers: final(store).module_maintainers,
            module_committers: final(store).module_committers,
            dependency_modules: final(store).dependency_modules,
            dependency_osvs: final(store).dependency_osvs,
            ..*old(store)
        }),
{
    let mut r: usize = 0;
    let mut i: usize = 0;
    let rows = store.modules.len();
    let ghost repos = store.repositories@;
    proof {
        assert(cascaded(*store, *store));
    }
    while i < store.repositories.len()
        invariant
            i <= store.repositories.len(),
            rows == old(store).modules@.len(),
            repos == old(store).repositories@,
            store.repositories@ == repos,
            store.wf(),
            old(store).wf(),
            forall|m: module::Model| store.modules@.contains(m) ==> old(store).modules@.contains(m),
            forall|m: module::Model|
                #![trigger store.modules@.contains(m)]
                old(store).modules@.contains(m) ==> (store.modules@.contains(m) <==> !(
                is_stale_after(m, *version_odoo, kept@) && lives_before(repos, m, i as int))),
            old(store).modules@.len() == store.modules@.len() + r,
            cascaded(*old(store), *store),
            *store == (Store {
                modules: store.modules,
                module_authors: store.module_authors,
                module_maintainers: store.module_maintainers,
                module_committers: store.module_committers,
                dependency_modules: store.dependency_modules,
                dependency_osvs: store.dependency_osvs,
                ..*old(store)
            }),
        decreases store.repositories.len() - i,
    {
        let ghost before = *store;
        let id = store.repositories[i].id;
        let met_there = kept.get(&id);
        match met_there {
            Some(ids) => {
                let gone = module::delete_outdated(store, &id, version_odoo, ids.as_slice());
                proof {
                    assert(kept@.contains_key(id) && kept@[id] == *ids);
                    assert forall|m: module::Model| store.modules@.contains(m) implies old(
                        store,
                    ).modules@.contains(m) by {
                        assert(before.modules@.contains(m));
                    }
                    lemma_cascaded_in_turn(*old(store), before, *store);
                    assert forall|m: module::Model|
                        #![trigger store.modules@.contains(m)]
                        old(store).modules@.contains(m) implies (store.modules@.contains(m) <==> !(
                        is_stale_after(m, *version_odoo, kept@) && lives_before(
                            repos,
                            m,
                            i + 1,
                        ))) by {
                        assert(store.modules@.contains(m) <==> before.modules@.contains(m)
                            && !is_stale(m, id, *version_odoo, ids@));
                        assert(before.modules@.contains(m) <==> !(is_stale_after(
                            m,
                            *version_odoo,
                            kept@,
                        ) && lives_before(repos, m, i as int)));
                        lemma_lives_before(repos, m, i as int);
                    }
                }
                r = r + gone;
            },
            None => {
                proof {
                    assert(!kept@.contains_key(id));
                    assert forall|m: module::Model|
                        #![trigger store.modules@.contains(m)]
                        old(store).modules@.contains(m) implies (store.modules@.contains(m) <==> !(
                        is_stale_after(m, *version_odoo, kept@) && lives_before(
                            repos,
                            m,
                            i + 1,
                        ))) by {
                        assert(store.modules@.contains(m) <==> !(is_stale_after(
                            m,
                            *version_odoo,
                            kept@,
                        ) && lives_before(repos, m, i as int)));
                        lemma_lives_before(repos, m, i as int);
                    }
                }
            },
        }
        i += 1;
    }
    proof {
        assert forall|m: module::Model|
            store.modules@.contains(m) <==> old(store).modules@.contains(m) && !is_stale_after(
                m,
                *version_odoo,
                kept@,
            ) by {
            if old(store).modules@.contains(m) {
                let j = choose|j: int|
                    0 <= j < old(store).modules@.len() && old(store).modules@[j] == m;
                assert(gh_repository::has(
                    repos,
                    old(store).modules@[j].gh_repository_id.0,
                    old(store).modules@[j].gh_repository_id.1@,
                ));
                let k = choose|k: int|
                    0 <= k < repos.len() && (#[trigger] repos[k]).id == m.gh_repository_id.0
                        && repos[k].name@ == m.gh_repository_id.1@;
                assert(lives_before(repos, m, repos.len() as int));
                assert(store.modules@.contains(m) <==> !(is_stale_after(m, *version_odoo, kept@)
                    && lives_before(repos, m, repos.len() as int)));
            }
        }
    }
    r
}

/// A module lives in one of the first `n + 1` repositories where it lives
/// in one of the first `n`, or in the one at `n`.
proof fn lemma_lives_before(repositories: Seq<gh_repository::Model>, m: module::Model, n: int)
    requires
        0 <= n < repositories.len(),
    ensures
        lives_before(repositories, m, n + 1) <==> lives_before(repositories, m, n)
            || repositories[n].id == m.gh_repository_id.0,
{
    if lives_before(repositories, m, n) {
        let k = choose|k: int|
            0 <= k < n && k < repositories.len() && (#[trigger] repositories[k]).id
                == m.gh_repository_id.0;
        assert(lives_before(repositories, m, n + 1));
    }
    if repositories[n].id == m.gh_repository_id.0 {
        assert(lives_before(repositories, m, n + 1));
    }
    if lives_before(repositories, m, n + 1) {
        let k = choose|k: int|
            0 <= k < n + 1 && k < repositories.len() && (#[trigger] repositories[k]).id
                == m.gh_repository_id.0;
        if k < n {
            assert(lives_before(repositories, m, n));
        }
    }
}

/// What the registry says of one vulnerability of a package: its id, what
/// it is, and the versions that mend it.
#[derive(Debug)]
pub struct Advisory {
    pub id: String,
    pub details: String,
    pub fixed_in: Vec<String>,
}

/// How the versions that mend a vulnerability are recorded: with a comma
/// and a space between.
pub open spec fn fixed_in_text(advisory: Advisory) -> Seq<char> {
    join_with(texts(advisory.fixed_in@), ", "@)
}

/// Whether `o` records, for the edge `dep_mod_id`, the first of
/// `advisories` with its id.
pub open spec fn records(o: dependency_osv::Model, dep_mod_id: i64, advisories: Seq<Advisory>) -> bool {
    exists|k: int|
        {
            &&& 0 <= k < advisories.len()
            &&& o.dependency_module_id.0 == dep_mod_id
            &&& o.osv_id@ == (#[trigger] advisories[k]).id@
            &&& o.details@ == advisories[k].details@
            &&& o.fixed_in@ == fixed_in_text(advisories[k])
            &&& forall|w: int| 0 <= w < k ==> (#[trigger] advisories[w]).id@ != advisories[k].id@
        }
}

/// Records the advisories on the package of the edge `dep_mod_id`: one
/// record for each id that the edge has no record of yet, with what the
/// first advisory of that id says. Records that are there stay as they are.
pub fn record_advisories(store: &mut Store, dep_mod_id: &i64, advisories: &Vec<Advisory>) -> (r:
    Result<(), StoreError>)
    requires
        old(store).wf(),
        dependency_module::has_id(old(store).dependency_modules@, *dep_mod_id),
    ensures
        final(store).wf(),
        r is Err <==> old(store).last_id + advisories@.len() > i64::MAX,
        r matches Err(e) ==> e == StoreError::IdsExhausted && *final(store) == *old(store),
        r is Ok ==> {
            &&& forall|k: int|
                0 <= k < advisories@.len() ==> dependency_osv::has_record(
                    final(store).dependency_osvs@,
                    *dep_mod_id,
                    (#[trigger] advisories@[k]).id@,
                )
            &&& forall|o: dependency_osv::Model| #[trigger]
                old(store).dependency_osvs@.contains(o) ==> final(store).dependency_osvs@.contains(
                    o,
                )
            &&& forall|o: dependency_osv::Model|
                #[trigger] final(store).dependency_osvs@.contains(o) ==> old(
                    store,
                ).dependency_osvs@.contains(o) || (!dependency_osv::has_record(
                    old(store).dependency_osvs@,
                    *dep_mod_id,
                    o.osv_id@,
                ) && records(o, *dep_mod_id, advisories@))
            &&& *final(store) == (Store {
                dependency_osvs: final(store).dependency_osvs,
                last_id: final(store).last_id,
                ..*old(store)
            })
        },
{
    if advisories.len() as u128 > (i64::MAX - store.last_id) as u128 {
        return Err(StoreError::IdsExhausted);
    }
    let mut k: usize = 0;
    while k < advisories.len()
        invariant
            k <= advisories.len(),
            store.wf(),
            old(store).wf(),
            dependency_module::has_id(store.dependency_modules@, *dep_mod_id),
            old(store).last_id <= store.last_id <= old(store).last_id + k,
            old(store).last_id + advisories@.len() <= i64::MAX,
            forall|w: int|
                0 <= w < k ==> dependency_osv::has_record(
                    store.dependency_osvs@,
                    *dep_mod_id,
                    (#[trigger] advisories@[w]).id@,
                ),
            forall|o: dependency_osv::Model|
                old(store).dependency_osvs@.contains(o) ==> store.dependency_osvs@.contains(o),
            forall|o: dependency_osv::Model|
                #[trigger] store.dependency_osvs@.contains(o) ==> old(
                    store,
                ).dependency_osvs@.contains(o) || (!dependency_osv::has_record(
                    old(store).dependency_osvs@,
                    *dep_mod_id,
                    o.osv_id@,
                ) && records(o, *dep_mod_id, advisories@.take(k as int))),
            *store == (Store {
                dependency_osvs: store.dependency_osvs,
                last_id: store.last_id,
                ..*old(store)
            }),
        decreases advisories.len() - k,
    {
        let ghost before = *store;
        let fixed_in = join_from(&advisories[k].fixed_in, 0, ", ");
        assert(texts(advisories@[k as int].fixed_in@).skip(0) =~= texts(
            advisories@[k as int].fixed_in@,
        ));
        let row = dependency_osv::add(
            store,
            dep_mod_id,
            advisories[k].id.as_str(),
            advisories[k].details.as_str(),
            fixed_in.as_str(),
        );
        proof {
            let s = advisories@.take(k as int);
            let t = advisories@.take(k + 1);
            let id = advisories@[k as int].id@;
            let had = dependency_osv::has_record(before.dependency_osvs@, *dep_mod_id, id);
            if !had {
                let rows = before.dependency_osvs@;
                let after = store.dependency_osvs@;
                assert(after == rows.push(row));
                assert forall|o: dependency_osv::Model| rows.contains(o) implies after.contains(
                    o,
                ) by {
                    let j = choose|j: int| 0 <= j < rows.len() && rows[j] == o;
                    assert(after[j] == o);
                }
                assert forall|o: dependency_osv::Model| after.contains(o) implies rows.contains(o)
                    || o == row by {
                    let j = choose|j: int| 0 <= j < after.len() && after[j] == o;
                    if j < rows.len() {
                        assert(rows[j] == o);
                    }
                }
                assert forall|x: Seq<char>| #[trigger]
                    dependency_osv::has_record(after, *dep_mod_id, x)
                    <==> dependency_osv::has_record(rows, *dep_mod_id, x) || x == id by {
                    if dependency_osv::has_record(after, *dep_mod_id, x) {
                        let j = choose|j: int|
                            0 <= j < after.len() && (#[trigger] after[j]).dependency_module_id.0
                                == *dep_mod_id && after[j].osv_id@ == x;
                        if j < rows.len() {
                            assert(rows[j] == after[j]);
                        }
                    }
                    if dependency_osv::has_record(rows, *dep_mod_id, x) {
                        let j = choose|j: int|
                            0 <= j < rows.len() && (#[trigger] rows[j]).dependency_module_id.0
                                == *dep_mod_id && rows[j].osv_id@ == x;
                        assert(after[j] == rows[j]);
                    }
                    if x == id {
                        assert(after[rows.len() as int] == row);
                    }
                }
                assert(records(row, *dep_mod_id, t)) by {
                    assert(t[k as int] == advisories@[k as int]);
                    assert forall|w: int| 0 <= w < k implies (#[trigger] t[w]).id@ != t[k as int].id@ by {
                        assert(t[w] == advisories@[w]);
                        if advisories@[w].id@ == id {
                            assert(dependency_osv::has_record(rows, *dep_mod_id, id));
                        }
                    }
                }
                if dependency_osv::has_record(old(store).dependency_osvs@, *dep_mod_id, id) {
                    let first = old(store).dependency_osvs@;
                    let j = choose|j: int|
                        0 <= j < first.len() && (#[trigger] first[j]).dependency_module_id.0
                            == *dep_mod_id && first[j].osv_id@ == id;
                    assert(first.contains(first[j]));
                    let j2 = choose|j2: int| 0 <= j2 < rows.len() && rows[j2] == first[j];
                    assert(rows[j2].osv_id@ == id);
                }
            }
            assert forall|o: dependency_osv::Model| #[trigger]
                store.dependency_osvs@.contains(o) implies old(store).dependency_osvs@.contains(o)
                || (!dependency_osv::has_record(
                old(store).dependency_osvs@,
                *dep_mod_id,
                o.osv_id@,
            ) && records(o, *dep_mod_id, t)) by {
                if before.dependency_osvs@.contains(o) {
                    if !old(store).dependency_osvs@.contains(o) {
                        let w = choose|w: int|
                            {
                                &&& 0 <= w < s.len()
                                &&& o.dependency_module_id.0 == *dep_mod_id
                                &&& o.osv_id@ == (#[trigger] s[w]).id@
                                &&& o.details@ == s[w].details@
                                &&& o.fixed_in@ == fixed_in_text(s[w])
                                &&& forall|v: int|
                                    0 <= v < w ==> (#[trigger] s[v]).id@ != s[w].id@
                            };
                        assert(t[w] == s[w]);
                        assert forall|v: int| 0 <= v < w implies (#[trigger] t[v]).id@
                            != t[w].id@ by {
                            assert(t[v] == s[v]);
                        }
                        assert(records(o, *dep_mod_id, t));
                    }
                } else {
                    assert(o == row);
                }
            }
        }
        k += 1;
    }
    assert(advisories@.take(advisories@.len() as int) =~= advisories@);
    Ok(())
}

} // verus!
