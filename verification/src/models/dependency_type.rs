//! The kinds of dependency. They are fixed: a peer module, an interpreter
//! package and a binary tool, numbered from one in that order.

use crate::text::same_text;
use vstd::prelude::*;
use vstd::string::*;

verus! {

#[derive(Debug)]
pub struct Model {
    pub id: i64,
    pub name: String,
}

/// The number of the kind "module".
pub const MODULE: i64 = 1;

/// The number of the kind "python".
pub const PYTHON: i64 = 2;

/// The number of the kind "bin".
pub const BIN: i64 = 3;

/// The name of the kind numbered `id`.
pub open spec fn name_of(id: i64) -> Seq<char> {
    if id == 1 {
        "module"@
    } else if id == 2 {
        "python"@
    } else {
        "bin"@
    }
}

/// Whether `id` numbers a kind.
pub open spec fn is_id(id: i64) -> bool {
    1 <= id <= 3
}

/// The name of the kind numbered `id`.
pub fn name_text(id: i64) -> (r: &'static str)
    requires
        is_id(id),
    ensures
        r@ == name_of(id),
{
    if id == 1 {
        "module"
    } else if id == 2 {
        "python"
    } else {
        "bin"
    }
}

/// The kind numbered `id`.
pub fn get_by_id(id: &i64) -> (r: Option<Model>)
    ensures
        r is Some <==> is_id(*id),
        r matches Some(m) ==> m.id == *id && m.name@ == name_of(*id),
{
    if 1 <= *id && *id <= 3 {
        Some(Model { id: *id, name: name_text(*id).to_owned() })
    } else {
        None
    }
}

/// The kind named `name`.
pub fn get_by_name(name: &str) -> (r: Option<Model>)
    ensures
        r is Some <==> exists|id: i64| is_id(id) && name_of(id) == name@,
        r matches Some(m) ==> is_id(m.id) && m.name@ == name@ && name_of(m.id) == name@,
{
    let mut id: i64 = 1;
    while id <= 3
        invariant
            1 <= id <= 4,
            forall|k: i64| 1 <= k < id ==> name_of(k) != name@,
        decreases 4 - id,
    {
        if same_text(name_text(id), name) {
            return Some(Model { id, name: name_text(id).to_owned() });
        }
        id += 1;
    }
    None
}

} // verus!
