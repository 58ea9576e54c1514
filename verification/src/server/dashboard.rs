//! The dashboard: how many modules each bucket has.

use crate::models::module;
use crate::models::module::{capped, modules_in};
use crate::models::store::Store;
use crate::version::{odoo_version_text, odoo_version_u8_to_string};
use vstd::prelude::*;

verus! {

/// How many modules a bucket has, with the bucket as text.
#[derive(Debug)]
pub struct ModuleCountInfoResponse {
    pub count: u32,
    pub version_odoo: String,
}

/// Whether `infos` give, one for one, what `rows` give, with each bucket as
/// text.
pub open spec fn shows(infos: Seq<ModuleCountInfoResponse>, rows: Seq<module::ModuleCountInfo>) -> bool {
    infos.len() == rows.len() && forall|k: int|
        0 <= k < infos.len() ==> (#[trigger] infos[k]).count == rows[k].count
            && infos[k].version_odoo@ == odoo_version_text(rows[k].version_odoo)
}

/// Whether `infos` give the number of modules of each bucket that has
/// modules, bucket by bucket.
pub open spec fn is_modules_count(infos: Seq<ModuleCountInfoResponse>, store: Store) -> bool {
    exists|rows: Seq<module::ModuleCountInfo>|
        #[trigger] shows(infos, rows) && (forall|k: int|
            0 <= k < rows.len() ==> (#[trigger] rows[k]).count > 0 && rows[k].count == capped(
                modules_in(store.modules@, rows[k].version_odoo),
            )) && (forall|a: int, b: int|
            0 <= a < b < rows.len() ==> (#[trigger] rows[a]).version_odoo < (
            #[trigger] rows[b]).version_odoo) && (forall|v: u8|
            modules_in(store.modules@, v) > 0 ==> exists|k: int|
                0 <= k < rows.len() && (#[trigger] rows[k]).version_odoo == v)
}

/// How many modules each bucket has, with each bucket as text.
pub fn modules_count(store: &Store) -> (r: Vec<ModuleCountInfoResponse>)
    ensures
        is_modules_count(r@, *store),
{
    let rows = module::count(store);
    let mut r: Vec<ModuleCountInfoResponse> = Vec::new();
    let mut i: usize = 0;
    while i < rows.len()
        invariant
            i <= rows.len(),
            shows(r@, rows@.take(i as int)),
        decreases rows.len() - i,
    {
        let ghost before = r@;
        r.push(
            ModuleCountInfoResponse {
                count: rows[i].count,
                version_odoo: odoo_version_u8_to_string(&rows[i].version_odoo),
            },
        );
        assert forall|k: int| 0 <= k < before.len() implies r@[k] == before[k] by {}
        i += 1;
    }
    proof {
        assert(rows@.take(rows@.len() as int) =~= rows@);
        assert(shows(r@, rows@));
    }
    r
}

} // verus!
