//! What the pages have in common: the buckets, and the counts and ranks of
//! the dashboard, with each bucket as text.

use crate::models::module;
use crate::models::module::{
    ModuleCountByOrganizationInfo, ModuleRankCommitterInfo, ModuleRankContributorInfo,
};
use crate::models::ranking::{
    has_author_row, has_committer_row, has_org_row, is_author_row, is_committer_row, is_org_row,
    is_top_author, is_top_committer, org_count,
};
use crate::models::store::Store;
use crate::version::{odoo_version_text, odoo_version_u8_to_string};
use vstd::prelude::*;

verus! {

/// A bucket, as a number and as text.
#[derive(Debug)]
pub struct OdooVersionInfo {
    pub key: u8,
    pub value: String,
}

/// How many modules an organization has in a bucket.
#[derive(Debug)]
pub struct ModuleCountInfo {
    pub version: String,
    pub count: u32,
    pub org: String,
}

/// Where a contributor stands in a bucket.
#[derive(Debug)]
pub struct ContribRankInfo {
    pub version: String,
    pub count: u32,
    pub contributor: String,
    pub rank: u16,
}

/// Where a committer stands in a bucket.
#[derive(Debug)]
pub struct CommitterRankInfo {
    pub version: String,
    pub count: u32,
    pub committer: String,
    pub rank: u16,
}

/// The buckets that have modules, the greatest first, each as a number and
/// as text.
pub fn get_odoo_versions(store: &Store) -> (r: Vec<OdooVersionInfo>)
    ensures
        forall|k: int|
            0 <= k < r@.len() ==> (#[trigger] r@[k]).value@ == odoo_version_text(r@[k].key),
        forall|a: int, b: int| 0 <= a < b < r@.len() ==> (#[trigger] r@[a]).key > (#[trigger] r@[b]).key,
        forall|v: u8|
            (exists|k: int| 0 <= k < r@.len() && (#[trigger] r@[k]).key == v)
                <==> module::modules_in(store.modules@, v) > 0,
{
    let versions = module::get_odoo_versions(store);
    let mut r: Vec<OdooVersionInfo> = Vec::new();
    let mut i: usize = 0;
    while i < versions.len()
        invariant
            i <= versions.len(),
            r@.len() == i,
            forall|k: int|
                0 <= k < i ==> (#[trigger] r@[k]).key == versions@[k] && r@[k].value@
                    == odoo_version_text(r@[k].key),
        decreases versions.len() - i,
    {
        let ghost before = r@;
        r.push(OdooVersionInfo { key: versions[i], value: odoo_version_u8_to_string(&versions[i]) });
        assert forall|k: int| 0 <= k < before.len() implies r@[k] == before[k] by {}
        i += 1;
    }
    proof {
        assert forall|a: int, b: int| 0 <= a < b < r@.len() implies (#[trigger] r@[a]).key > (
        #[trigger] r@[b]).key by {
            assert(versions@[a] > versions@[b]);
        }
        assert forall|v: u8|
            (exists|k: int| 0 <= k < r@.len() && (#[trigger] r@[k]).key == v)
                <==> module::modules_in(store.modules@, v) > 0 by {
            if versions@.contains(v) {
                let k = choose|k: int| 0 <= k < versions@.len() && versions@[k] == v;
                assert(r@[k].key == v);
            }
            if exists|k: int| 0 <= k < r@.len() && (#[trigger] r@[k]).key == v {
                let k = choose|k: int| 0 <= k < r@.len() && (#[trigger] r@[k]).key == v;
                assert(versions@[k] == v);
            }
        }
    }
    r
}

/// Whether `infos` give, one for one, what `rows` give, with each bucket as
/// text.
pub open spec fn shows_counts(
    infos: Seq<ModuleCountInfo>,
    rows: Seq<ModuleCountByOrganizationInfo>,
) -> bool {
    infos.len() == rows.len() && forall|k: int|
        0 <= k < infos.len() ==> (#[trigger] infos[k]).version@ == odoo_version_text(
            rows[k].version_odoo,
        ) && infos[k].count == rows[k].count && infos[k].org@ == rows[k].org_name@
}

/// The counts `rows`, with each bucket as text.
pub fn module_counts(rows: &Vec<ModuleCountByOrganizationInfo>) -> (r: Vec<ModuleCountInfo>)
    ensures
        shows_counts(r@, rows@),
{
    let mut r: Vec<ModuleCountInfo> = Vec::new();
    let mut i: usize = 0;
    while i < rows.len()
        invariant
            i <= rows.len(),
            shows_counts(r@, rows@.take(i as int)),
        decreases rows.len() - i,
    {
        let ghost before = r@;
        r.push(
            ModuleCountInfo {
                version: odoo_version_u8_to_string(&rows[i].version_odoo),
                count: rows[i].count,
                org: rows[i].org_name.clone(),
            },
        );
        assert forall|k: int| 0 <= k < before.len() implies r@[k] == before[k] by {}
        i += 1;
    }
    assert(rows@.take(rows@.len() as int) =~= rows@);
    r
}

/// Whether `infos` give, one for one, what `rows` give, with each bucket as
/// text.
pub open spec fn shows_contributors(
    infos: Seq<ContribRankInfo>,
    rows: Seq<ModuleRankContributorInfo>,
) -> bool {
    infos.len() == rows.len() && forall|k: int|
        0 <= k < infos.len() ==> (#[trigger] infos[k]).version@ == odoo_version_text(
            rows[k].version_odoo,
        ) && infos[k].count == rows[k].count && infos[k].contributor@ == rows[k].contrib_name@
            && infos[k].rank == rows[k].rank
}

/// The ranks `rows`, with each bucket as text.
pub fn contributor_ranks(rows: &Vec<ModuleRankContributorInfo>) -> (r: Vec<ContribRankInfo>)
    ensures
        shows_contributors(r@, rows@),
{
    let mut r: Vec<ContribRankInfo> = Vec::new();
    let mut i: usize = 0;
    while i < rows.len()
        invariant
            i <= rows.len(),
            shows_contributors(r@, rows@.take(i as int)),
        decreases rows.len() - i,
    {
        let ghost before = r@;
        r.push(
            ContribRankInfo {
                version: odoo_version_u8_to_string(&rows[i].version_odoo),
                count: rows[i].count,
                contributor: rows[i].contrib_name.clone(),
                rank: rows[i].rank,
            },
        );
        assert forall|k: int| 0 <= k < before.len() implies r@[k] == before[k] by {}
        i += 1;
    }
    assert(rows@.take(rows@.len() as int) =~= rows@);
    r
}

/// Whether `infos` give, one for one, what `rows` give, with each bucket as
/// text.
pub open spec fn shows_committers(
    infos: Seq<CommitterRankInfo>,
    rows: Seq<ModuleRankCommitterInfo>,
) -> bool {
    infos.len() == rows.len() && forall|k: int|
        0 <= k < infos.len() ==> (#[trigger] infos[k]).version@ == odoo_version_text(
            rows[k].version_odoo,
        ) && infos[k].count == rows[k].count && infos[k].committer@ == rows[k].committer_name@
            && infos[k].rank == rows[k].rank
}

/// The ranks `rows`, with each bucket as text.
pub fn committer_ranks(rows: &Vec<ModuleRankCommitterInfo>) -> (r: Vec<CommitterRankInfo>)
    ensures
        shows_committers(r@, rows@),
{
    let mut r: Vec<CommitterRankInfo> = Vec::new();
    let mut i: usize = 0;
    while i < rows.len()
        invariant
            i <= rows.len(),
            shows_committers(r@, rows@.take(i as int)),
        decreases rows.len() - i,
    {
        let ghost before = r@;
        r.push(
            CommitterRankInfo {
                version: odoo_version_u8_to_string(&rows[i].version_odoo),
                count: rows[i].count,
                committer: rows[i].committer_name.clone(),
                rank: rows[i].rank,
            },
        );
        assert forall|k: int| 0 <= k < before.len() implies r@[k] == before[k] by {}
        i += 1;
    }
    assert(rows@.take(rows@.len() as int) =~= rows@);
    r
}

/// Whether `infos` show rows of which each gives the number of modules of
/// an organization in a bucket, the greatest number first, with a row for
/// each organization and bucket in which the organization has modules.
pub open spec fn is_module_count(infos: Seq<ModuleCountInfo>, store: Store) -> bool {
    exists|rows: Seq<ModuleCountByOrganizationInfo>|
        #[trigger] shows_counts(infos, rows) && (forall|k: int|
            0 <= k < rows.len() ==> is_org_row(#[trigger] rows[k], store)) && (forall|
            a: int,
            b: int,
        |
            0 <= a < b < rows.len() ==> (#[trigger] rows[a]).count >= (#[trigger] rows[b]).count)
            && (forall|i: int, v: u8|
            0 <= i < store.organizations@.len() && #[trigger] org_count(store, i, v) > 0
                ==> has_org_row(rows, store, i, v))
}

/// How many modules each organization has in each bucket, the greatest
/// number first.
pub fn get_odoo_module_count(store: &Store) -> (r: Vec<ModuleCountInfo>)
    requires
        store.wf(),
    ensures
        is_module_count(r@, *store),
{
    let rows = module::count_organization(store);
    let r = module_counts(&rows);
    assert(shows_counts(r@, rows@));
    r
}

/// Whether `infos` show the contributors who stand first in each bucket,
/// those of the first rank first.
pub open spec fn is_contributor_rank(infos: Seq<ContribRankInfo>, store: Store) -> bool {
    exists|rows: Seq<ModuleRankContributorInfo>|
        #[trigger] shows_contributors(infos, rows) && (forall|k: int|
            0 <= k < rows.len() ==> is_author_row(#[trigger] rows[k], store)) && (forall|
            a: int,
            b: int,
        |
            0 <= a < b < rows.len() ==> (#[trigger] rows[a]).rank <= (#[trigger] rows[b]).rank)
            && (forall|i: int, v: u8|
            #[trigger] is_top_author(store, i, v) ==> has_author_row(rows, store, i, v))
}

/// The contributors who stand first in each bucket.
pub fn get_odoo_contributor_rank(store: &Store) -> (r: Vec<ContribRankInfo>)
    requires
        store.wf(),
    ensures
        is_contributor_rank(r@, *store),
{
    let rows = module::rank_contributor(store);
    let r = contributor_ranks(&rows);
    assert(shows_contributors(r@, rows@));
    r
}

/// Whether `infos` show the committers who stand first in each bucket,
/// those of the first rank first.
pub open spec fn is_committer_rank(infos: Seq<CommitterRankInfo>, store: Store) -> bool {
    exists|rows: Seq<ModuleRankCommitterInfo>|
        #[trigger] shows_committers(infos, rows) && (forall|k: int|
            0 <= k < rows.len() ==> is_committer_row(#[trigger] rows[k], store)) && (forall|
            a: int,
            b: int,
        |
            0 <= a < b < rows.len() ==> (#[trigger] rows[a]).rank <= (#[trigger] rows[b]).rank)
            && (forall|i: int, v: u8|
            #[trigger] is_top_committer(store, i, v) ==> has_committer_row(rows, store, i, v))
}

/// The committers who stand first in each bucket.
pub fn get_odoo_committer_rank(store: &Store) -> (r: Vec<CommitterRankInfo>)
    requires
        store.wf(),
    ensures
        is_committer_rank(r@, *store),
{
    let rows = module::rank_committer(store);
    let r = committer_ranks(&rows);
    assert(shows_committers(r@, rows@));
    r
}

} // verus!
