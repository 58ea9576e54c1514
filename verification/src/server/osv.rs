//! The vulnerability page: every advisory, with the bucket, the module and
//! the package that it concerns.

use crate::models::dependency_osv;
use crate::models::dependency_osv::DependencyModuleOSVInfo;
use crate::models::store::Store;
use crate::version::{odoo_version_text, odoo_version_u8_to_string};
use vstd::prelude::*;
use vstd::string::*;

verus! {

/// An advisory: its id, what it says, and the versions that mend it.
#[derive(Debug)]
pub struct OSVInfo {
    pub osv_id: String,
    pub details: String,
    pub fixed_in: String,
}

/// An advisory in its place on the page: under a bucket, a module and a
/// package.
#[derive(Debug)]
pub struct OSVEntry {
    pub version_odoo: String,
    pub module: String,
    pub package: String,
    pub advisory: OSVInfo,
}

/// How the page names a module: its technical name, then its display name
/// in brackets.
pub open spec fn module_title(technical_name: Seq<char>, name: Seq<char>) -> Seq<char> {
    technical_name + " ("@ + name + ")"@
}

/// Whether `entry` is `info` in its place on the page.
pub open spec fn places(entry: OSVEntry, info: DependencyModuleOSVInfo) -> bool {
    &&& entry.version_odoo@ == odoo_version_text(info.version_odoo)
    &&& entry.module@ == module_title(info.module_technical_name@, info.module_name@)
    &&& entry.package@ == info.name@
    &&& entry.advisory.osv_id@ == info.osv_id@
    &&& entry.advisory.details@ == info.details@
    &&& entry.advisory.fixed_in@ == info.fixed_in@
}

/// The advisory `info` in its place on the page.
pub fn entry_of(info: &DependencyModuleOSVInfo) -> (r: OSVEntry)
    ensures
        places(r, *info),
{
    let mut title = info.module_technical_name.clone();
    title.append(" (");
    title.append(info.module_name.as_str());
    title.append(")");
    OSVEntry {
        version_odoo: odoo_version_u8_to_string(&info.version_odoo),
        module: title,
        package: info.name.clone(),
        advisory: OSVInfo {
            osv_id: info.osv_id.clone(),
            details: info.details.clone(),
            fixed_in: info.fixed_in.clone(),
        },
    }
}

/// Whether `entries` are `infos`, one for one, each in its place.
pub open spec fn place_all(entries: Seq<OSVEntry>, infos: Seq<DependencyModuleOSVInfo>) -> bool {
    entries.len() == infos.len() && forall|k: int|
        0 <= k < entries.len() ==> places(#[trigger] entries[k], infos[k])
}

/// Each of `infos` in its place on the page, in the same order.
pub fn entries_of(infos: &Vec<DependencyModuleOSVInfo>) -> (r: Vec<OSVEntry>)
    ensures
        place_all(r@, infos@),
{
    let mut r: Vec<OSVEntry> = Vec::new();
    let mut i: usize = 0;
    while i < infos.len()
        invariant
            i <= infos.len(),
            place_all(r@, infos@.take(i as int)),
        decreases infos.len() - i,
    {
        let ghost before = r@;
        r.push(entry_of(&infos[i]));
        assert forall|k: int| 0 <= k < before.len() implies r@[k] == before[k] by {}
        i += 1;
    }
    assert(infos@.take(infos@.len() as int) =~= infos@);
    r
}

/// Every advisory of the catalog in its place on the page, in the order of
/// the records.
pub fn osv_entries(store: &Store) -> (r: Vec<OSVEntry>)
    requires
        store.wf(),
    ensures
        exists|infos: Seq<DependencyModuleOSVInfo>|
            {
                &&& #[trigger] place_all(r@, infos)
                &&& infos.len() == dependency_osv::whole_records(
                    *store,
                    store.dependency_osvs@.len() as int,
                ).len()
                &&& forall|k: int|
                    0 <= k < infos.len() ==> dependency_osv::tells_of(
                        #[trigger] infos[k],
                        *store,
                        dependency_osv::whole_records(
                            *store,
                            store.dependency_osvs@.len() as int,
                        )[k],
                    )
            },
{
    let infos = dependency_osv::get_osv_info(store);
    let r = entries_of(&infos);
    assert(place_all(r@, infos@));
    r
}

} // verus!
