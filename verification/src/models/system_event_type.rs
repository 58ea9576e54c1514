//! The tags of the audit log. They are fixed: nine rows, numbered from one in
//! the order in which they were first entered.

use crate::text::same_text;
use vstd::prelude::*;
use vstd::string::*;

verus! {

#[derive(Debug)]
pub struct Model {
    pub id: i64,
    pub name: String,
}

/// The name of the tag numbered `id`.
pub open spec fn name_of(id: i64) -> Seq<char> {
    if id == 1 {
        "issue"@
    } else if id == 2 {
        "internal"@
    } else if id == 3 {
        "module"@
    } else if id == 4 {
        "maintainer"@
    } else if id == 5 {
        "committer"@
    } else if id == 6 {
        "dependency"@
    } else if id == 7 {
        "author"@
    } else if id == 8 {
        "repository"@
    } else {
        "organization"@
    }
}

/// Whether `id` numbers a tag.
pub open spec fn is_id(id: i64) -> bool {
    1 <= id <= 9
}

fn name_text(id: i64) -> (r: &'static str)
    requires
        is_id(id),
    ensures
        r@ == name_of(id),
{
    if id == 1 {
        "issue"
    } else if id == 2 {
        "internal"
    } else if id == 3 {
        "module"
    } else if id == 4 {
        "maintainer"
    } else if id == 5 {
        "committer"
    } else if id == 6 {
        "dependency"
    } else if id == 7 {
        "author"
    } else if id == 8 {
        "repository"
    } else {
        "organization"
    }
}

/// The tag numbered `id`.
pub fn get_by_id(id: &i64) -> (r: Option<Model>)
    ensures
        r is Some <==> is_id(*id),
        r matches Some(m) ==> m.id == *id && m.name@ == name_of(*id),
{
    if 1 <= *id && *id <= 9 {
        Some(Model { id: *id, name: name_text(*id).to_owned() })
    } else {
        None
    }
}

/// The tag named `name`.
pub fn get_by_name(name: &str) -> (r: Option<Model>)
    ensures
        r is Some <==> exists|id: i64| is_id(id) && name_of(id) == name@,
        r matches Some(m) ==> is_id(m.id) && m.name@ == name@ && name_of(m.id) == name@,
{
    let mut id: i64 = 1;
    while id <= 9
        invariant
            1 <= id <= 10,
            forall|k: i64| 1 <= k < id ==> name_of(k) != name@,
        decreases 10 - id,
    {
        if same_text(name_text(id), name) {
            return Some(Model { id, name: name_text(id).to_owned() });
        }
        id += 1;
    }
    None
}

} // verus!
