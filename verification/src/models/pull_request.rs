//! Pull requests that touch a module.

use vstd::prelude::*;

verus! {

/// A pull request. `gh_repository_id` is the identity of its repository and a
/// copy of that repository's name.
#[derive(Debug)]
pub struct Model {
    pub id: i64,
    pub name: String,
    pub version_odoo: u8,
    pub module_technical_name: String,
    pub prid: i64,
    pub gh_repository_id: (i64, String),
}

} // verus!
