//! Checks of the catalog's invariant, for rows that come from outside the
//! library: from a file, or from another process.

use crate::models::author;
use crate::models::committer;
use crate::models::dependency;
use crate::models::dependency_module;
use crate::models::dependency_osv;
use crate::models::dependency_type;
use crate::models::gh_organization;
use crate::models::gh_repository;
use crate::models::maintainer;
use crate::models::module;
use crate::models::module::ManifestInfo;
use crate::models::module_author;
use crate::models::module_committer;
use crate::models::module_maintainer;
use crate::models::store::Store;
use crate::text::same_text;
use vstd::prelude::*;

verus! {

/// Whether the organizations `rows` are keyed as the catalog asks, with
/// identities from 1 to `last_id`.
pub fn organizations_are_keyed(rows: &Vec<gh_organization::Model>, last_id: i64) -> (r: bool)
    ensures
        r == (gh_organization::ids_below(rows@, last_id) && gh_organization::well_keyed(rows@)),
{
    let mut j: usize = 0;
    while j < rows.len()
        invariant
            j <= rows.len(),
            forall|k: int| 0 <= k < j ==> 0 < (#[trigger] rows@[k]).id <= last_id,
            forall|a: int, b: int|
                0 <= a < b < j ==> (#[trigger] rows@[a]).id != (#[trigger] rows@[b]).id,
            forall|a: int, b: int|
                #![trigger rows@[a], rows@[b]]
                0 <= a < b < j ==> rows@[a].name@ != rows@[b].name@,
        decreases rows.len() - j,
    {
        if rows[j].id <= 0 || rows[j].id > last_id {
            return false;
        }
        let mut i: usize = 0;
        while i < j
            invariant
                i <= j,
                j < rows.len(),
                forall|a: int| 0 <= a < i ==> (#[trigger] rows@[a]).id != rows@[j as int].id,
                forall|a: int|
                    #![trigger rows@[a]]
                    0 <= a < i ==> rows@[a].name@ != rows@[j as int].name@,
            decreases j - i,
        {
            if rows[i].id == rows[j].id {
                return false;
            }
            if same_text(rows[i].name.as_str(), rows[j].name.as_str()) {
                return false;
            }
            i += 1;
        }
        j += 1;
    }
    true
}

/// Whether the repositories `rows` are keyed as the catalog asks, with
/// identities from 1 to `last_id`.
pub fn repositories_are_keyed(rows: &Vec<gh_repository::Model>, last_id: i64) -> (r: bool)
    ensures
        r == (gh_repository::ids_below(rows@, last_id) && gh_repository::well_keyed(rows@)),
{
    let mut j: usize = 0;
    while j < rows.len()
        invariant
            j <= rows.len(),
            forall|k: int| 0 <= k < j ==> 0 < (#[trigger] rows@[k]).id <= last_id,
            forall|a: int, b: int|
                0 <= a < b < j ==> (#[trigger] rows@[a]).id != (#[trigger] rows@[b]).id,
            forall|a: int, b: int|
                #![trigger rows@[a], rows@[b]]
                0 <= a < b < j ==> !(rows@[a].name@ == rows@[b].name@ && rows@[a].gh_organization_id.0 == rows@[b].gh_organization_id.0),
        decreases rows.len() - j,
    {
        if rows[j].id <= 0 || rows[j].id > last_id {
            return false;
        }
        let mut i: usize = 0;
        while i < j
            invariant
                i <= j,
                j < rows.len(),
                forall|a: int| 0 <= a < i ==> (#[trigger] rows@[a]).id != rows@[j as int].id,
                forall|a: int|
                    #![trigger rows@[a]]
                    0 <= a < i ==> !(rows@[a].name@ == rows@[j as int].name@ && rows@[a].gh_organization_id.0 == rows@[j as int].gh_organization_id.0),
            decreases j - i,
        {
            if rows[i].id == rows[j].id {
                return false;
            }
            if rows[i].gh_organization_id.0 == rows[j].gh_organization_id.0 && same_text(rows[i].name.as_str(), rows[j].name.as_str()) {
                return false;
            }
            i += 1;
        }
        j += 1;
    }
    true
}

/// Whether the modules `rows` are keyed as the catalog asks, with
/// identities from 1 to `last_id`.
pub fn modules_are_keyed(rows: &Vec<module::Model>, last_id: i64) -> (r: bool)
    ensures
        r == (module::ids_below(rows@, last_id) && module::well_keyed(rows@)),
{
    let mut j: usize = 0;
    while j < rows.len()
        invariant
            j <= rows.len(),
            forall|k: int| 0 <= k < j ==> 0 < (#[trigger] rows@[k]).id <= last_id,
            forall|a: int, b: int|
                0 <= a < b < j ==> (#[trigger] rows@[a]).id != (#[trigger] rows@[b]).id,
            forall|a: int, b: int|
                #![trigger rows@[a], rows@[b]]
                0 <= a < b < j ==> !rows@[a].is_keyed(rows@[b].technical_name@, rows@[b].version_odoo, rows@[b].gh_repository_id.0),
        decreases rows.len() - j,
    {
        if rows[j].id <= 0 || rows[j].id > last_id {
            return false;
        }
        let mut i: usize = 0;
        while i < j
            invariant
                i <= j,
                j < rows.len(),
                forall|a: int| 0 <= a < i ==> (#[trigger] rows@[a]).id != rows@[j as int].id,
                forall|a: int|
                    #![trigger rows@[a]]
                    0 <= a < i ==> !rows@[a].is_keyed(rows@[j as int].technical_name@, rows@[j as int].version_odoo, rows@[j as int].gh_repository_id.0),
            decreases j - i,
        {
            if rows[i].id == rows[j].id {
                return false;
            }
            if rows[i].version_odoo == rows[j].version_odoo && rows[i].gh_repository_id.0 == rows[j].gh_repository_id.0 && same_text(rows[i].technical_name.as_str(), rows[j].technical_name.as_str()) {
                return false;
            }
            i += 1;
        }
        j += 1;
    }
    true
}

/// Whether the authors `rows` are keyed as the catalog asks, with
/// identities from 1 to `last_id`.
pub fn authors_are_keyed(rows: &Vec<author::Model>, last_id: i64) -> (r: bool)
    ensures
        r == (author::ids_below(rows@, last_id) && author::well_keyed(rows@)),
{
    let mut j: usize = 0;
    while j < rows.len()
        invariant
            j <= rows.len(),
            forall|k: int| 0 <= k < j ==> 0 < (#[trigger] rows@[k]).id <= last_id,
            forall|a: int, b: int|
                0 <= a < b < j ==> (#[trigger] rows@[a]).id != (#[trigger] rows@[b]).id,
            forall|a: int, b: int|
                #![trigger rows@[a], rows@[b]]
                0 <= a < b < j ==> rows@[a].name@ != rows@[b].name@,
        decreases rows.len() - j,
    {
        if rows[j].id <= 0 || rows[j].id > last_id {
            return false;
        }
        let mut i: usize = 0;
        while i < j
            invariant
                i <= j,
                j < rows.len(),
                forall|a: int| 0 <= a < i ==> (#[trigger] rows@[a]).id != rows@[j as int].id,
                forall|a: int|
                    #![trigger rows@[a]]
                    0 <= a < i ==> rows@[a].name@ != rows@[j as int].name@,
            decreases j - i,
        {
            if rows[i].id == rows[j].id {
                return false;
            }
            if same_text(rows[i].name.as_str(), rows[j].name.as_str()) {
                return false;
            }
            i += 1;
        }
        j += 1;
    }
    true
}

/// Whether the maintainers `rows` are keyed as the catalog asks, with
/// identities from 1 to `last_id`.
pub fn maintainers_are_keyed(rows: &Vec<maintainer::Model>, last_id: i64) -> (r: bool)
    ensures
        r == (maintainer::ids_below(rows@, last_id) && maintainer::well_keyed(rows@)),
{
    let mut j: usize = 0;
    while j < rows.len()
        invariant
            j <= rows.len(),
            forall|k: int| 0 <= k < j ==> 0 < (#[trigger] rows@[k]).id <= last_id,
            forall|a: int, b: int|
                0 <= a < b < j ==> (#[trigger] rows@[a]).id != (#[trigger] rows@[b]).id,
            forall|a: int, b: int|
                #![trigger rows@[a], rows@[b]]
                0 <= a < b < j ==> rows@[a].name@ != rows@[b].name@,
        decreases rows.len() - j,
    {
        if rows[j].id <= 0 || rows[j].id > last_id {
            return false;
        }
        let mut i: usize = 0;
        while i < j
            invariant
                i <= j,
                j < rows.len(),
                forall|a: int| 0 <= a < i ==> (#[trigger] rows@[a]).id != rows@[j as int].id,
                forall|a: int|
                    #![trigger rows@[a]]
                    0 <= a < i ==> rows@[a].name@ != rows@[j as int].name@,
            decreases j - i,
        {
            if rows[i].id == rows[j].id {
                return false;
            }
            if same_text(rows[i].name.as_str(), rows[j].name.as_str()) {
                return false;
            }
            i += 1;
        }
        j += 1;
    }
    true
}

/// Whether the committers `rows` are keyed as the catalog asks, with
/// identities from 1 to `last_id`.
pub fn committers_are_keyed(rows: &Vec<committer::Model>, last_id: i64) -> (r: bool)
    ensures
        r == (committer::ids_below(rows@, last_id) && committer::well_keyed(rows@)),
{
    let mut j: usize = 0;
    while j < rows.len()
        invariant
            j <= rows.len(),
            forall|k: int| 0 <= k < j ==> 0 < (#[trigger] rows@[k]).id <= last_id,
            forall|a: int, b: int|
                0 <= a < b < j ==> (#[trigger] rows@[a]).id != (#[trigger] rows@[b]).id,
            forall|a: int, b: int|
                #![trigger rows@[a], rows@[b]]
                0 <= a < b < j ==> rows@[a].name@ != rows@[b].name@,
        decreases rows.len() - j,
    {
        if rows[j].id <= 0 || rows[j].id > last_id {
            return false;
        }
        let mut i: usize = 0;
        while i < j
            invariant
                i <= j,
                j < rows.len(),
                forall|a: int| 0 <= a < i ==> (#[trigger] rows@[a]).id != rows@[j as int].id,
                forall|a: int|
                    #![trigger rows@[a]]
                    0 <= a < i ==> rows@[a].name@ != rows@[j as int].name@,
            decreases j - i,
        {
            if rows[i].id == rows[j].id {
                return false;
            }
            if same_text(rows[i].name.as_str(), rows[j].name.as_str()) {
                return false;
            }
            i += 1;
        }
        j += 1;
    }
    true
}

/// Whether the links of modules to authors `rows` are keyed as the catalog asks, with
/// identities from 1 to `last_id`.
pub fn module_authors_are_keyed(rows: &Vec<module_author::Model>, last_id: i64) -> (r: bool)
    ensures
        r == (module_author::ids_below(rows@, last_id) && module_author::well_keyed(rows@)),
{
    let mut j: usize = 0;
    while j < rows.len()
        invariant
            j <= rows.len(),
            forall|k: int| 0 <= k < j ==> 0 < (#[trigger] rows@[k]).id <= last_id,
            forall|a: int, b: int|
                0 <= a < b < j ==> (#[trigger] rows@[a]).id != (#[trigger] rows@[b]).id,
            forall|a: int, b: int|
                #![trigger rows@[a], rows@[b]]
                0 <= a < b < j ==> !(rows@[a].module_id.0 == rows@[b].module_id.0 && rows@[a].author_id.0 == rows@[b].author_id.0),
        decreases rows.len() - j,
    {
        if rows[j].id <= 0 || rows[j].id > last_id {
            return false;
        }
        let mut i: usize = 0;
        while i < j
            invariant
                i <= j,
                j < rows.len(),
                forall|a: int| 0 <= a < i ==> (#[trigger] rows@[a]).id != rows@[j as int].id,
                forall|a: int|
                    #![trigger rows@[a]]
                    0 <= a < i ==> !(rows@[a].module_id.0 == rows@[j as int].module_id.0 && rows@[a].author_id.0 == rows@[j as int].author_id.0),
            decreases j - i,
        {
            if rows[i].id == rows[j].id {
                return false;
            }
            if rows[i].module_id.0 == rows[j].module_id.0 && rows[i].author_id.0 == rows[j].author_id.0 {
                return false;
            }
            i += 1;
        }
        j += 1;
    }
    true
}

/// Whether the links of modules to maintainers `rows` are keyed as the catalog asks, with
/// identities from 1 to `last_id`.
pub fn module_maintainers_are_keyed(rows: &Vec<module_maintainer::Model>, last_id: i64) -> (r: bool)
    ensures
        r == (module_maintainer::ids_below(rows@, last_id) && module_maintainer::well_keyed(rows@)),
{
    let mut j: usize = 0;
    while j < rows.len()
        invariant
            j <= rows.len(),
            forall|k: int| 0 <= k < j ==> 0 < (#[trigger] rows@[k]).id <= last_id,
            forall|a: int, b: int|
                0 <= a < b < j ==> (#[trigger] rows@[a]).id != (#[trigger] rows@[b]).id,
            forall|a: int, b: int|
                #![trigger rows@[a], rows@[b]]
                0 <= a < b < j ==> !(rows@[a].module_id.0 == rows@[b].module_id.0 && rows@[a].maintainer_id.0 == rows@[b].maintainer_id.0),
        decreases rows.len() - j,
    {
        if rows[j].id <= 0 || rows[j].id > last_id {
            return false;
        }
        let mut i: usize = 0;
        while i < j
            invariant
                i <= j,
                j < rows.len(),
                forall|a: int| 0 <= a < i ==> (#[trigger] rows@[a]).id != rows@[j as int].id,
                forall|a: int|
                    #![trigger rows@[a]]
                    0 <= a < i ==> !(rows@[a].module_id.0 == rows@[j as int].module_id.0 && rows@[a].maintainer_id.0 == rows@[j as int].maintainer_id.0),
            decreases j - i,
        {
            if rows[i].id == rows[j].id {
                return false;
            }
            if rows[i].module_id.0 == rows[j].module_id.0 && rows[i].maintainer_id.0 == rows[j].maintainer_id.0 {
                return false;
            }
            i += 1;
        }
        j += 1;
    }
    true
}

/// Whether the links of modules to committers `rows` are keyed as the catalog asks, with
/// identities from 1 to `last_id`.
pub fn module_committers_are_keyed(rows: &Vec<module_committer::Model>, last_id: i64) -> (r: bool)
    ensures
        r == (module_committer::ids_below(rows@, last_id) && module_committer::well_keyed(rows@)),
{
    let mut j: usize = 0;
    while j < rows.len()
        invariant
            j <= rows.len(),
            forall|k: int| 0 <= k < j ==> 0 < (#[trigger] rows@[k]).id <= last_id,
            forall|a: int, b: int|
                0 <= a < b < j ==> (#[trigger] rows@[a]).id != (#[trigger] rows@[b]).id,
            forall|a: int, b: int|
                #![trigger rows@[a], rows@[b]]
                0 <= a < b < j ==> !(rows@[a].module_id.0 == rows@[b].module_id.0 && rows@[a].committer_id.0 == rows@[b].committer_id.0),
        decreases rows.len() - j,
    {
        if rows[j].id <= 0 || rows[j].id > last_id {
            return false;
        }
        let mut i: usize = 0;
        while i < j
            invariant
                i <= j,
                j < rows.len(),
                forall|a: int| 0 <= a < i ==> (#[trigger] rows@[a]).id != rows@[j as int].id,
                forall|a: int|
                    #![trigger rows@[a]]
                    0 <= a < i ==> !(rows@[a].module_id.0 == rows@[j as int].module_id.0 && rows@[a].committer_id.0 == rows@[j as int].committer_id.0),
            decreases j - i,
        {
            if rows[i].id == rows[j].id {
                return false;
            }
            if rows[i].module_id.0 == rows[j].module_id.0 && rows[i].committer_id.0 == rows[j].committer_id.0 {
                return false;
            }
            i += 1;
        }
        j += 1;
    }
    true
}

/// Whether the dependencies `rows` are keyed as the catalog asks, with
/// identities from 1 to `last_id`.
pub fn dependencies_are_keyed(rows: &Vec<dependency::Model>, last_id: i64) -> (r: bool)
    ensures
        r == (dependency::ids_below(rows@, last_id) && dependency::well_keyed(rows@)),
{
    let mut j: usize = 0;
    while j < rows.len()
        invariant
            j <= rows.len(),
            forall|k: int| 0 <= k < j ==> 0 < (#[trigger] rows@[k]).id <= last_id,
            forall|a: int, b: int|
                0 <= a < b < j ==> (#[trigger] rows@[a]).id != (#[trigger] rows@[b]).id,
            forall|a: int, b: int|
                #![trigger rows@[a], rows@[b]]
                0 <= a < b < j ==> !(rows@[a].name@ == rows@[b].name@ && rows@[a].dependency_type_id.0 == rows@[b].dependency_type_id.0),
            forall|k: int|
                0 <= k < j ==> dependency_type::is_id((#[trigger] rows@[k]).dependency_type_id.0)
                    && rows@[k].dependency_type_id.1@ == dependency_type::name_of(
                    rows@[k].dependency_type_id.0,
                ),
        decreases rows.len() - j,
    {
        if rows[j].id <= 0 || rows[j].id > last_id {
            return false;
        }
        match dependency_type::get_by_id(&rows[j].dependency_type_id.0) {
            Some(kind) => {
                if !same_text(kind.name.as_str(), rows[j].dependency_type_id.1.as_str()) {
                    return false;
                }
            },
            None => {
                return false;
            },
        }
        let mut i: usize = 0;
        while i < j
            invariant
                i <= j,
                j < rows.len(),
                forall|a: int| 0 <= a < i ==> (#[trigger] rows@[a]).id != rows@[j as int].id,
                forall|a: int|
                    #![trigger rows@[a]]
                    0 <= a < i ==> !(rows@[a].name@ == rows@[j as int].name@ && rows@[a].dependency_type_id.0 == rows@[j as int].dependency_type_id.0),
            decreases j - i,
        {
            if rows[i].id == rows[j].id {
                return false;
            }
            if rows[i].dependency_type_id.0 == rows[j].dependency_type_id.0 && same_text(rows[i].name.as_str(), rows[j].name.as_str()) {
                return false;
            }
            i += 1;
        }
        j += 1;
    }
    true
}

/// Whether the edges `rows` are keyed as the catalog asks, with
/// identities from 1 to `last_id`.
pub fn dependency_modules_are_keyed(rows: &Vec<dependency_module::Model>, last_id: i64) -> (r: bool)
    ensures
        r == (dependency_module::ids_below(rows@, last_id) && dependency_module::well_keyed(rows@)),
{
    let mut j: usize = 0;
    while j < rows.len()
        invariant
            j <= rows.len(),
            forall|k: int| 0 <= k < j ==> 0 < (#[trigger] rows@[k]).id <= last_id,
            forall|a: int, b: int|
                0 <= a < b < j ==> (#[trigger] rows@[a]).id != (#[trigger] rows@[b]).id,
            forall|a: int, b: int|
                #![trigger rows@[a], rows@[b]]
                0 <= a < b < j ==> !(rows@[a].module_id.0 == rows@[b].module_id.0 && rows@[a].dependency_id.0 == rows@[b].dependency_id.0),
        decreases rows.len() - j,
    {
        if rows[j].id <= 0 || rows[j].id > last_id {
            return false;
        }
        let mut i: usize = 0;
        while i < j
            invariant
                i <= j,
                j < rows.len(),
                forall|a: int| 0 <= a < i ==> (#[trigger] rows@[a]).id != rows@[j as int].id,
                forall|a: int|
                    #![trigger rows@[a]]
                    0 <= a < i ==> !(rows@[a].module_id.0 == rows@[j as int].module_id.0 && rows@[a].dependency_id.0 == rows@[j as int].dependency_id.0),
            decreases j - i,
        {
            if rows[i].id == rows[j].id {
                return false;
            }
            if rows[i].module_id.0 == rows[j].module_id.0 && rows[i].dependency_id.0 == rows[j].dependency_id.0 {
                return false;
            }
            i += 1;
        }
        j += 1;
    }
    true
}

/// Whether the vulnerability records `rows` are keyed as the catalog asks, with
/// identities from 1 to `last_id`.
pub fn dependency_osvs_are_keyed(rows: &Vec<dependency_osv::Model>, last_id: i64) -> (r: bool)
    ensures
        r == (dependency_osv::ids_below(rows@, last_id) && dependency_osv::well_keyed(rows@)),
{
    let mut j: usize = 0;
    while j < rows.len()
        invariant
            j <= rows.len(),
            forall|k: int| 0 <= k < j ==> 0 < (#[trigger] rows@[k]).id <= last_id,
            forall|a: int, b: int|
                0 <= a < b < j ==> (#[trigger] rows@[a]).id != (#[trigger] rows@[b]).id,
            forall|a: int, b: int|
                #![trigger rows@[a], rows@[b]]
                0 <= a < b < j ==> !(rows@[a].dependency_module_id.0 == rows@[b].dependency_module_id.0 && rows@[a].osv_id@ == rows@[b].osv_id@),
        decreases rows.len() - j,
    {
        if rows[j].id <= 0 || rows[j].id > last_id {
            return false;
        }
        let mut i: usize = 0;
        while i < j
            invariant
                i <= j,
                j < rows.len(),
                forall|a: int| 0 <= a < i ==> (#[trigger] rows@[a]).id != rows@[j as int].id,
                forall|a: int|
                    #![trigger rows@[a]]
                    0 <= a < i ==> !(rows@[a].dependency_module_id.0 == rows@[j as int].dependency_module_id.0 && rows@[a].osv_id@ == rows@[j as int].osv_id@),
            decreases j - i,
        {
            if rows[i].id == rows[j].id {
                return false;
            }
            if rows[i].dependency_module_id.0 == rows[j].dependency_module_id.0 && same_text(rows[i].osv_id.as_str(), rows[j].osv_id.as_str()) {
                return false;
            }
            i += 1;
        }
        j += 1;
    }
    true
}

/// Whether each repository of `rows` names an organization of `targets`, by its
/// identity and under its name.
pub fn repositories_are_owned(rows: &Vec<gh_repository::Model>, targets: &Vec<gh_organization::Model>) -> (r: bool)
    ensures
        r == gh_repository::owned(rows@, targets@),
{
    let mut i: usize = 0;
    while i < rows.len()
        invariant
            i <= rows.len(),
            forall|k: int|
                0 <= k < i ==> gh_organization::has(
                    targets@,
                    (#[trigger] rows@[k]).gh_organization_id.0,
                    rows@[k].gh_organization_id.1@,
                ),
        decreases rows.len() - i,
    {
        let mut found = false;
        let mut t: usize = 0;
        while t < targets.len() && !found
            invariant
                t <= targets.len(),
                i < rows.len(),
                found ==> gh_organization::has(targets@, rows@[i as int].gh_organization_id.0, rows@[i as int].gh_organization_id.1@),
                !found ==> forall|k: int|
                    0 <= k < t ==> !((#[trigger] targets@[k]).id == rows@[i as int].gh_organization_id.0
                        && targets@[k].name@ == rows@[i as int].gh_organization_id.1@),
            decreases targets.len() - t + if found { 0int } else { 1int },
        {
            if targets[t].id == rows[i].gh_organization_id.0 && same_text(
                targets[t].name.as_str(),
                rows[i].gh_organization_id.1.as_str(),
            ) {
                found = true;
            } else {
                t += 1;
            }
        }
        if !found {
            assert(!gh_organization::has(targets@, rows@[i as int].gh_organization_id.0, rows@[i as int].gh_organization_id.1@));
            return false;
        }
        i += 1;
    }
    true
}

/// Whether each module of `rows` names a repository of `targets`, by its
/// identity and under its name.
pub fn modules_are_housed(rows: &Vec<module::Model>, targets: &Vec<gh_repository::Model>) -> (r: bool)
    ensures
        r == module::housed(rows@, targets@),
{
    let mut i: usize = 0;
    while i < rows.len()
        invariant
            i <= rows.len(),
            forall|k: int|
                0 <= k < i ==> gh_repository::has(
                    targets@,
                    (#[trigger] rows@[k]).gh_repository_id.0,
                    rows@[k].gh_repository_id.1@,
                ),
        decreases rows.len() - i,
    {
        let mut found = false;
        let mut t: usize = 0;
        while t < targets.len() && !found
            invariant
                t <= targets.len(),
                i < rows.len(),
                found ==> gh_repository::has(targets@, rows@[i as int].gh_repository_id.0, rows@[i as int].gh_repository_id.1@),
                !found ==> forall|k: int|
                    0 <= k < t ==> !((#[trigger] targets@[k]).id == rows@[i as int].gh_repository_id.0
                        && targets@[k].name@ == rows@[i as int].gh_repository_id.1@),
            decreases targets.len() - t + if found { 0int } else { 1int },
        {
            if targets[t].id == rows[i].gh_repository_id.0 && same_text(
                targets[t].name.as_str(),
                rows[i].gh_repository_id.1.as_str(),
            ) {
                found = true;
            } else {
                t += 1;
            }
        }
        if !found {
            assert(!gh_repository::has(targets@, rows@[i as int].gh_repository_id.0, rows@[i as int].gh_repository_id.1@));
            return false;
        }
        i += 1;
    }
    true
}

/// Whether each link of `rows` names an author of `targets`, by its
/// identity and under its name.
pub fn authors_are_linked(rows: &Vec<module_author::Model>, targets: &Vec<author::Model>) -> (r: bool)
    ensures
        r == module_author::linked(rows@, targets@),
{
    let mut i: usize = 0;
    while i < rows.len()
        invariant
            i <= rows.len(),
            forall|k: int|
                0 <= k < i ==> author::has(
                    targets@,
                    (#[trigger] rows@[k]).author_id.0,
                    rows@[k].author_id.1@,
                ),
        decreases rows.len() - i,
    {
        let mut found = false;
        let mut t: usize = 0;
        while t < targets.len() && !found
            invariant
                t <= targets.len(),
                i < rows.len(),
                found ==> author::has(targets@, rows@[i as int].author_id.0, rows@[i as int].author_id.1@),
                !found ==> forall|k: int|
                    0 <= k < t ==> !((#[trigger] targets@[k]).id == rows@[i as int].author_id.0
                        && targets@[k].name@ == rows@[i as int].author_id.1@),
            decreases targets.len() - t + if found { 0int } else { 1int },
        {
            if targets[t].id == rows[i].author_id.0 && same_text(
                targets[t].name.as_str(),
                rows[i].author_id.1.as_str(),
            ) {
                found = true;
            } else {
                t += 1;
            }
        }
        if !found {
            assert(!author::has(targets@, rows@[i as int].author_id.0, rows@[i as int].author_id.1@));
            return false;
        }
        i += 1;
    }
    true
}

/// Whether each link of `rows` names a maintainer of `targets`, by its
/// identity and under its name.
pub fn maintainers_are_linked(rows: &Vec<module_maintainer::Model>, targets: &Vec<maintainer::Model>) -> (r: bool)
    ensures
        r == module_maintainer::linked(rows@, targets@),
{
    let mut i: usize = 0;
    while i < rows.len()
        invariant
            i <= rows.len(),
            forall|k: int|
                0 <= k < i ==> maintainer::has(
                    targets@,
                    (#[trigger] rows@[k]).maintainer_id.0,
                    rows@[k].maintainer_id.1@,
                ),
        decreases rows.len() - i,
    {
        let mut found = false;
        let mut t: usize = 0;
        while t < targets.len() && !found
            invariant
                t <= targets.len(),
                i < rows.len(),
                found ==> maintainer::has(targets@, rows@[i as int].maintainer_id.0, rows@[i as int].maintainer_id.1@),
                !found ==> forall|k: int|
                    0 <= k < t ==> !((#[trigger] targets@[k]).id == rows@[i as int].maintainer_id.0
                        && targets@[k].name@ == rows@[i as int].maintainer_id.1@),
            decreases targets.len() - t + if found { 0int } else { 1int },
        {
            if targets[t].id == rows[i].maintainer_id.0 && same_text(
                targets[t].name.as_str(),
                rows[i].maintainer_id.1.as_str(),
            ) {
                found = true;
            } else {
                t += 1;
            }
        }
        if !found {
            assert(!maintainer::has(targets@, rows@[i as int].maintainer_id.0, rows@[i as int].maintainer_id.1@));
            return false;
        }
        i += 1;
    }
    true
}

/// Whether each link of `rows` names a committer of `targets`, by its
/// identity and under its name.
pub fn committers_are_linked(rows: &Vec<module_committer::Model>, targets: &Vec<committer::Model>) -> (r: bool)
    ensures
        r == module_committer::linked(rows@, targets@),
{
    let mut i: usize = 0;
    while i < rows.len()
        invariant
            i <= rows.len(),
            forall|k: int|
                0 <= k < i ==> committer::has(
                    targets@,
                    (#[trigger] rows@[k]).committer_id.0,
                    rows@[k].committer_id.1@,
                ),
        decreases rows.len() - i,
    {
        let mut found = false;
        let mut t: usize = 0;
        while t < targets.len() && !found
            invariant
                t <= targets.len(),
                i < rows.len(),
                found ==> committer::has(targets@, rows@[i as int].committer_id.0, rows@[i as int].committer_id.1@),
                !found ==> forall|k: int|
                    0 <= k < t ==> !((#[trigger] targets@[k]).id == rows@[i as int].committer_id.0
                        && targets@[k].name@ == rows@[i as int].committer_id.1@),
            decreases targets.len() - t + if found { 0int } else { 1int },
        {
            if targets[t].id == rows[i].committer_id.0 && same_text(
                targets[t].name.as_str(),
                rows[i].committer_id.1.as_str(),
            ) {
                found = true;
            } else {
                t += 1;
            }
        }
        if !found {
            assert(!committer::has(targets@, rows@[i as int].committer_id.0, rows@[i as int].committer_id.1@));
            return false;
        }
        i += 1;
    }
    true
}

/// Whether each edge of `rows` names a dependency of `targets`, by its
/// identity and under its name.
pub fn edges_are_linked(rows: &Vec<dependency_module::Model>, targets: &Vec<dependency::Model>) -> (r: bool)
    ensures
        r == dependency_module::linked(rows@, targets@),
{
    let mut i: usize = 0;
    while i < rows.len()
        invariant
            i <= rows.len(),
            forall|k: int|
                0 <= k < i ==> dependency::has(
                    targets@,
                    (#[trigger] rows@[k]).dependency_id.0,
                    rows@[k].dependency_id.1@,
                ),
        decreases rows.len() - i,
    {
        let mut found = false;
        let mut t: usize = 0;
        while t < targets.len() && !found
            invariant
                t <= targets.len(),
                i < rows.len(),
                found ==> dependency::has(targets@, rows@[i as int].dependency_id.0, rows@[i as int].dependency_id.1@),
                !found ==> forall|k: int|
                    0 <= k < t ==> !((#[trigger] targets@[k]).id == rows@[i as int].dependency_id.0
                        && targets@[k].name@ == rows@[i as int].dependency_id.1@),
            decreases targets.len() - t + if found { 0int } else { 1int },
        {
            if targets[t].id == rows[i].dependency_id.0 && same_text(
                targets[t].name.as_str(),
                rows[i].dependency_id.1.as_str(),
            ) {
                found = true;
            } else {
                t += 1;
            }
        }
        if !found {
            assert(!dependency::has(targets@, rows@[i as int].dependency_id.0, rows@[i as int].dependency_id.1@));
            return false;
        }
        i += 1;
    }
    true
}

impl Store {
    /// Whether the catalog holds its invariant. A catalog that the library
    /// made holds it; one that was put together from rows of a file is
    /// checked with this before anything is asked of it.
    pub fn is_wf(&self) -> (r: bool)
        ensures
            r == self.wf(),
    {
        self.last_id >= 0 && organizations_are_keyed(&self.organizations, self.last_id)
            && repositories_are_keyed(&self.repositories, self.last_id) && modules_are_keyed(
            &self.modules,
            self.last_id,
        ) && authors_are_keyed(&self.authors, self.last_id) && maintainers_are_keyed(
            &self.maintainers,
            self.last_id,
        ) && committers_are_keyed(&self.committers, self.last_id) && module_authors_are_keyed(
            &self.module_authors,
            self.last_id,
        ) && module_maintainers_are_keyed(&self.module_maintainers, self.last_id)
            && module_committers_are_keyed(&self.module_committers, self.last_id)
            && dependencies_are_keyed(&self.dependencies, self.last_id)
            && dependency_modules_are_keyed(&self.dependency_modules, self.last_id)
            && dependency_osvs_are_keyed(&self.dependency_osvs, self.last_id)
            && repositories_are_owned(&self.repositories, &self.organizations)
            && modules_are_housed(&self.modules, &self.repositories) && authors_are_linked(
            &self.module_authors,
            &self.authors,
        ) && maintainers_are_linked(&self.module_maintainers, &self.maintainers)
            && committers_are_linked(&self.module_committers, &self.committers)
            && edges_are_linked(&self.dependency_modules, &self.dependencies)
    }
}

impl ManifestInfo {
    /// Whether the descriptor gives no committer twice.
    pub fn is_wf(&self) -> (r: bool)
        ensures
            r == self.wf(),
    {
        let ghost names = module_committer::counted_names(self.committers@);
        let mut j: usize = 0;
        while j < self.committers.len()
            invariant
                j <= self.committers.len(),
                names == module_committer::counted_names(self.committers@),
                forall|a: int, b: int| 0 <= a < b < j ==> names[a] != names[b],
            decreases self.committers.len() - j,
        {
            let mut i: usize = 0;
            while i < j
                invariant
                    i <= j,
                    j < self.committers.len(),
                    names == module_committer::counted_names(self.committers@),
                    forall|a: int| 0 <= a < i ==> names[a] != names[j as int],
                decreases j - i,
            {
                assert(names[i as int] == self.committers@[i as int].0@);
                assert(names[j as int] == self.committers@[j as int].0@);
                if same_text(self.committers[i].0.as_str(), self.committers[j].0.as_str()) {
                    return false;
                }
                i += 1;
            }
            j += 1;
        }
        true
    }
}

} // verus!
