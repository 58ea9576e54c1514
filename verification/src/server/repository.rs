//! The repository page: in which organizations a repository name is found,
//! and how many modules each has in each bucket.

use crate::models::gh_repository;
use crate::models::gh_repository::RepositoryInfo;
use crate::models::store::Store;
use crate::text::same_text;
use crate::version::{odoo_version_text, odoo_version_u8_to_string};
use vstd::prelude::*;

verus! {

/// A repository name, and for each organization that has a repository of
/// that name the number of modules in each bucket, the bucket as text.
#[derive(Debug)]
pub struct RepositoryGenericInfoResponse {
    pub name: String,
    pub organizations: Vec<(String, Vec<(String, u16)>)>,
}

/// Whether `groups` gives `n` modules for the organization `org` in the
/// bucket with the text `bucket`.
pub open spec fn gives(
    groups: Seq<(String, Vec<(String, u16)>)>,
    org: Seq<char>,
    bucket: Seq<char>,
    n: u16,
) -> bool {
    exists|i: int, j: int|
        0 <= i < groups.len() && 0 <= j < (#[trigger] groups[i]).1@.len() && groups[i].0@ == org
            && (#[trigger] groups[i].1@[j]).0@ == bucket && groups[i].1@[j].1 == n
}

/// Whether `groups` names the bucket with the text `bucket` for the
/// organization `org`.
pub open spec fn names(
    groups: Seq<(String, Vec<(String, u16)>)>,
    org: Seq<char>,
    bucket: Seq<char>,
) -> bool {
    exists|n: u16| #[trigger] gives(groups, org, bucket, n)
}

/// Whether the first of `infos` that is about the organization `org` and
/// the bucket with the text `bucket` gives `n` modules.
pub open spec fn counted(infos: Seq<RepositoryInfo>, org: Seq<char>, bucket: Seq<char>, n: u16) -> bool {
    exists|k: int|
        {
            &&& 0 <= k < infos.len()
            &&& is_about(#[trigger] infos[k], org, bucket)
            &&& infos[k].num_modules == n
            &&& forall|w: int| 0 <= w < k ==> !is_about(#[trigger] infos[w], org, bucket)
        }
}

/// Whether `info` is about the organization `org` and the bucket with the
/// text `bucket`.
pub open spec fn is_about(info: RepositoryInfo, org: Seq<char>, bucket: Seq<char>) -> bool {
    info.organization@ == org && odoo_version_text(info.version_odoo) == bucket
}

/// No organization occurs twice in `groups`.
pub open spec fn well_grouped(groups: Seq<(String, Vec<(String, u16)>)>) -> bool {
    forall|a: int, b: int|
        0 <= a < b < groups.len() ==> (#[trigger] groups[a]).0@ != (#[trigger] groups[b]).0@
}

fn place_of_org(groups: &Vec<(String, Vec<(String, u16)>)>, org: &str) -> (at: Option<usize>)
    ensures
        at matches Some(i) ==> i < groups@.len() && groups@[i as int].0@ == org@,
        at is None ==> forall|i: int| 0 <= i < groups@.len() ==> (#[trigger] groups@[i]).0@ != org@,
{
    let mut i: usize = 0;
    while i < groups.len()
        invariant
            i <= groups.len(),
            forall|k: int| 0 <= k < i ==> (#[trigger] groups@[k]).0@ != org@,
        decreases groups.len() - i,
    {
        if same_text(groups[i].0.as_str(), org) {
            return Some(i);
        }
        i += 1;
    }
    None
}

fn has_bucket(branches: &Vec<(String, u16)>, bucket: &str) -> (r: bool)
    ensures
        r <==> exists|j: int| 0 <= j < branches@.len() && (#[trigger] branches@[j]).0@ == bucket@,
{
    let mut j: usize = 0;
    while j < branches.len()
        invariant
            j <= branches.len(),
            forall|k: int| 0 <= k < j ==> (#[trigger] branches@[k]).0@ != bucket@,
        decreases branches.len() - j,
    {
        if same_text(branches[j].0.as_str(), bucket) {
            return true;
        }
        j += 1;
    }
    false
}

fn copy_branches(v: &Vec<(String, u16)>) -> (r: Vec<(String, u16)>)
    ensures
        r@ == v@,
{
    let mut r: Vec<(String, u16)> = Vec::new();
    let mut i: usize = 0;
    while i < v.len()
        invariant
            i <= v.len(),
            r@ == v@.take(i as int),
        decreases v.len() - i,
    {
        r.push((v[i].0.clone(), v[i].1));
        assert(r@ =~= v@.take(i + 1));
        i += 1;
    }
    assert(v@.take(v.len() as int) =~= v@);
    r
}

/// What is known of the repository name `repo_name`, given the counts
/// `infos` of the repositories of that name: nothing where there are none;
/// else, for each organization, the number of modules in each bucket. Where
/// two counts are for one organization and one bucket, the first one
/// stands.
pub fn generic_info_of(repo_name: &str, infos: &Vec<RepositoryInfo>) -> (r: Option<
    RepositoryGenericInfoResponse,
>)
    ensures
        r is Some <==> infos@.len() > 0,
        r matches Some(g) ==> {
            &&& g.name@ == repo_name@
            &&& well_grouped(g.organizations@)
            &&& forall|org: Seq<char>, bucket: Seq<char>, n: u16|
                #[trigger] gives(g.organizations@, org, bucket, n) ==> counted(
                    infos@,
                    org,
                    bucket,
                    n,
                )
            &&& forall|k: int|
                0 <= k < infos@.len() ==> names(
                    g.organizations@,
                    (#[trigger] infos@[k]).organization@,
                    odoo_version_text(infos@[k].version_odoo),
                )
        },
{
    if infos.len() == 0 {
        return None;
    }
    let mut groups: Vec<(String, Vec<(String, u16)>)> = Vec::new();
    let mut k: usize = 0;
    while k < infos.len()
        invariant
            k <= infos.len(),
            well_grouped(groups@),
            forall|org: Seq<char>, bucket: Seq<char>, n: u16|
                #[trigger] gives(groups@, org, bucket, n) ==> counted(infos@, org, bucket, n),
            forall|w: int|
                0 <= w < k ==> names(
                    groups@,
                    (#[trigger] infos@[w]).organization@,
                    odoo_version_text(infos@[w].version_odoo),
                ),
        decreases infos.len() - k,
    {
        let bucket = odoo_version_u8_to_string(&infos[k].version_odoo);
        let ghost before = groups@;
        let ghost org = infos@[k as int].organization@;
        match place_of_org(&groups, infos[k].organization.as_str()) {
            Some(i) => {
                if !has_bucket(&groups[i].1, bucket.as_str()) {
                    let mut branches = copy_branches(&groups[i].1);
                    branches.push((bucket, infos[k].num_modules));
                    let label = groups[i].0.clone();
                    groups.set(i, (label, branches));
                    proof {
                        let after = groups@;
                        let last = before[i as int].1@.len() as int;
                        assert forall|a: int| 0 <= a < after.len() implies (#[trigger] after[a]).0@
                            == before[a].0@ && (a != i ==> after[a] == before[a]) by {}
                        assert forall|j: int| 0 <= j < last implies after[i as int].1@[j]
                            == before[i as int].1@[j] by {}
                        assert forall|a: int, b: int| 0 <= a < b < after.len() implies (
                        #[trigger] after[a]).0@ != (#[trigger] after[b]).0@ by {
                            assert(before[a].0@ != before[b].0@);
                        }
                        assert forall|o: Seq<char>, b: Seq<char>, n: u16| #[trigger]
                            gives(after, o, b, n) implies counted(infos@, o, b, n) by {
                            let (x, y) = choose|x: int, y: int|
                                0 <= x < after.len() && 0 <= y < (#[trigger] after[x]).1@.len()
                                    && after[x].0@ == o && (#[trigger] after[x].1@[y]).0@ == b
                                    && after[x].1@[y].1 == n;
                            if x == i && y == last {
                                assert forall|w: int| 0 <= w < k implies !is_about(
                                    #[trigger] infos@[w],
                                    o,
                                    b,
                                ) by {
                                    if is_about(infos@[w], o, b) {
                                        let n0 = choose|n0: u16| #[trigger] gives(before, o, b, n0);
                                        let (x0, y0) = choose|x0: int, y0: int|
                                            0 <= x0 < before.len() && 0 <= y0 < (
                                            #[trigger] before[x0]).1@.len() && before[x0].0@ == o
                                                && (#[trigger] before[x0].1@[y0]).0@ == b
                                                && before[x0].1@[y0].1 == n0;
                                        if x0 < i {
                                            assert(before[x0].0@ != before[i as int].0@);
                                        } else if i < x0 {
                                            assert(before[i as int].0@ != before[x0].0@);
                                        }
                                        assert(before[i as int].1@[y0].0@ == b);
                                    }
                                }
                                assert(is_about(infos@[k as int], o, b));
                            } else {
                                if x == i {
                                    assert(before[x].1@[y] == after[x].1@[y]);
                                } else {
                                    assert(before[x] == after[x]);
                                }
                                assert(gives(before, o, b, n));
                            }
                        }
                        assert forall|o: Seq<char>, b: Seq<char>, n: u16| #[trigger]
                            gives(before, o, b, n) implies gives(after, o, b, n) by {
                            let (x, y) = choose|x: int, y: int|
                                0 <= x < before.len() && 0 <= y < (#[trigger] before[x]).1@.len()
                                    && before[x].0@ == o && (#[trigger] before[x].1@[y]).0@ == b
                                    && before[x].1@[y].1 == n;
                            if x == i {
                                assert(after[x].1@[y] == before[x].1@[y]);
                            } else {
                                assert(after[x] == before[x]);
                            }
                        }
                        assert(gives(
                            after,
                            org,
                            odoo_version_text(infos@[k as int].version_odoo),
                            infos@[k as int].num_modules,
                        )) by {
                            assert(after[i as int].1@[last].0@ == odoo_version_text(
                                infos@[k as int].version_odoo,
                            ));
                        }
                    }
                } else {
                    proof {
                        let j = choose|j: int|
                            0 <= j < groups@[i as int].1@.len() && (
                            #[trigger] groups@[i as int].1@[j]).0@ == bucket@;
                        assert(gives(groups@, org, bucket@, groups@[i as int].1@[j].1));
                    }
                }
            },
            None => {
                let mut branches: Vec<(String, u16)> = Vec::new();
                branches.push((bucket, infos[k].num_modules));
                groups.push((infos[k].organization.clone(), branches));
                proof {
                    let after = groups@;
                    let last = before.len() as int;
                    assert forall|a: int| 0 <= a < before.len() implies after[a] == before[a] by {}
                    assert forall|o: Seq<char>, b: Seq<char>, n: u16| #[trigger]
                        gives(after, o, b, n) implies counted(infos@, o, b, n) by {
                        let (x, y) = choose|x: int, y: int|
                            0 <= x < after.len() && 0 <= y < (#[trigger] after[x]).1@.len()
                                && after[x].0@ == o && (#[trigger] after[x].1@[y]).0@ == b
                                && after[x].1@[y].1 == n;
                        if x == last {
                            assert forall|w: int| 0 <= w < k implies !is_about(
                                #[trigger] infos@[w],
                                o,
                                b,
                            ) by {
                                if is_about(infos@[w], o, b) {
                                    let n0 = choose|n0: u16| #[trigger] gives(before, o, b, n0);
                                    let (x0, y0) = choose|x0: int, y0: int|
                                        0 <= x0 < before.len() && 0 <= y0 < (
                                        #[trigger] before[x0]).1@.len() && before[x0].0@ == o && (
                                        #[trigger] before[x0].1@[y0]).0@ == b
                                            && before[x0].1@[y0].1 == n0;
                                    assert(before[x0].0@ != org);
                                }
                            }
                            assert(is_about(infos@[k as int], o, b));
                        } else {
                            assert(before[x] == after[x]);
                            assert(gives(before, o, b, n));
                        }
                    }
                    assert forall|o: Seq<char>, b: Seq<char>, n: u16| #[trigger]
                        gives(before, o, b, n) implies gives(after, o, b, n) by {
                        let (x, y) = choose|x: int, y: int|
                            0 <= x < before.len() && 0 <= y < (#[trigger] before[x]).1@.len()
                                && before[x].0@ == o && (#[trigger] before[x].1@[y]).0@ == b
                                && before[x].1@[y].1 == n;
                        assert(after[x] == before[x]);
                    }
                    assert(gives(
                        after,
                        org,
                        odoo_version_text(infos@[k as int].version_odoo),
                        infos@[k as int].num_modules,
                    )) by {
                        assert(after[last].1@[0].0@ == odoo_version_text(
                            infos@[k as int].version_odoo,
                        ));
                    }
                }
            },
        }
        proof {
            assert forall|w: int| 0 <= w < k + 1 implies names(
                groups@,
                (#[trigger] infos@[w]).organization@,
                odoo_version_text(infos@[w].version_odoo),
            ) by {
                if w < k {
                    let n = choose|n: u16|
                        #[trigger] gives(
                            before,
                            infos@[w].organization@,
                            odoo_version_text(infos@[w].version_odoo),
                            n,
                        );
                    if groups@ != before {
                        assert(gives(
                            groups@,
                            infos@[w].organization@,
                            odoo_version_text(infos@[w].version_odoo),
                            n,
                        ));
                    }
                }
            }
        }
        k += 1;
    }
    Some(RepositoryGenericInfoResponse { name: repo_name.to_owned(), organizations: groups })
}

/// Whether a repository named `repo_name` of the organization `org` has
/// `n` modules, and more than none, in the bucket with the text `bucket`.
pub open spec fn is_counted(
    store: Store,
    repo_name: Seq<char>,
    org: Seq<char>,
    bucket: Seq<char>,
    n: u16,
) -> bool {
    exists|info: RepositoryInfo|
        {
            &&& #[trigger] gh_repository::is_count(info, store)
            &&& info.name@ == repo_name
            &&& info.organization@ == org
            &&& odoo_version_text(info.version_odoo) == bucket
            &&& info.num_modules == n
        }
}

/// Whether a repository named `repo_name` has a module.
pub open spec fn has_modules(store: Store, repo_name: Seq<char>) -> bool {
    exists|i: int, v: u8|
        0 <= i < store.repositories@.len() && store.repositories@[i].name@ == repo_name
            && #[trigger] gh_repository::modules_of(store.modules@, store.repositories@[i].id, v)
            > 0
}

/// What is known of the repository name `repo_name`: nothing where no
/// repository of that name has a module; else, for each organization that
/// has such a repository, the number of modules in each bucket in which it
/// has modules.
pub fn get_repository_generic_info(store: &Store, repo_name: &str) -> (r: Option<
    RepositoryGenericInfoResponse,
>)
    ensures
        r is Some <==> has_modules(*store, repo_name@),
        r matches Some(g) ==> {
            &&& g.name@ == repo_name@
            &&& well_grouped(g.organizations@)
            &&& forall|org: Seq<char>, bucket: Seq<char>, n: u16|
                #[trigger] gives(g.organizations@, org, bucket, n) ==> is_counted(
                    *store,
                    repo_name@,
                    org,
                    bucket,
                    n,
                )
        },
        forall|i: int, v: u8|
            0 <= i < store.repositories@.len() && store.repositories@[i].name@ == repo_name@
                && #[trigger] gh_repository::modules_of(
                store.modules@,
                store.repositories@[i].id,
                v,
            ) > 0 ==> (r matches Some(g) && names(
                g.organizations@,
                store.repositories@[i].gh_organization_id.1@,
                odoo_version_text(v),
            )),
{
    let infos = gh_repository::get_info_by_name(store, repo_name);
    let r = generic_info_of(repo_name, &infos);
    proof {
        if infos@.len() > 0 {
            assert(gh_repository::is_count(infos@[0], *store));
            let i = choose|i: int| #[trigger] gh_repository::counts_for(infos@[0], *store, i);
            assert(gh_repository::modules_of(
                store.modules@,
                store.repositories@[i].id,
                infos@[0].version_odoo,
            ) > 0);
        }
        if has_modules(*store, repo_name@) {
            let (i, v) = choose|i: int, v: u8|
                0 <= i < store.repositories@.len() && store.repositories@[i].name@ == repo_name@
                    && #[trigger] gh_repository::modules_of(
                    store.modules@,
                    store.repositories@[i].id,
                    v,
                ) > 0;
            assert(gh_repository::has_count_for(infos@, *store, i, v));
        }
        if r is Some {
            let g = r->0;
            {
                assert forall|org: Seq<char>, bucket: Seq<char>, n: u16| #[trigger]
                    gives(g.organizations@, org, bucket, n) implies is_counted(
                    *store,
                    repo_name@,
                    org,
                    bucket,
                    n,
                ) by {
                    assert(counted(infos@, org, bucket, n));
                    let k = choose|k: int|
                        {
                            &&& 0 <= k < infos@.len()
                            &&& is_about(#[trigger] infos@[k], org, bucket)
                            &&& infos@[k].num_modules == n
                            &&& forall|w: int|
                                0 <= w < k ==> !is_about(#[trigger] infos@[w], org, bucket)
                        };
                    assert(gh_repository::is_count(infos@[k], *store));
                }
            }
        }
        assert forall|i: int, v: u8|
            0 <= i < store.repositories@.len() && store.repositories@[i].name@ == repo_name@
                && #[trigger] gh_repository::modules_of(
                store.modules@,
                store.repositories@[i].id,
                v,
            ) > 0 implies (r matches Some(g) && names(
            g.organizations@,
            store.repositories@[i].gh_organization_id.1@,
            odoo_version_text(v),
        )) by {
            assert(gh_repository::has_count_for(infos@, *store, i, v));
            let k = choose|k: int|
                0 <= k < infos@.len() && (#[trigger] infos@[k]).version_odoo == v
                    && infos@[k].organization@ == store.repositories@[i].gh_organization_id.1@;
            assert(names(
                r->0.organizations@,
                infos@[k].organization@,
                odoo_version_text(infos@[k].version_odoo),
            ));
        }
    }
    r
}

} // verus!
