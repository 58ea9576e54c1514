//! Maintainers: free-text names, each kept once.

use crate::models::module_maintainer;
use crate::models::store::Store;
use crate::text::same_text;
use vstd::prelude::*;

verus! {

#[derive(Debug)]
pub struct Model {
    pub id: i64,
    pub name: String,
}

impl Model {
    /// A copy of the row.
    pub fn duplicate(&self) -> (r: Model)
        ensures
            r == *self,
    {
        Model { id: self.id, name: self.name.clone() }
    }
}

/// Identities lie in `1..=last_id`.
pub open spec fn ids_below(rows: Seq<Model>, last_id: i64) -> bool {
    forall|i: int| 0 <= i < rows.len() ==> 0 < (#[trigger] rows[i]).id <= last_id
}

/// No identity and no name occurs twice.
pub open spec fn well_keyed(rows: Seq<Model>) -> bool {
    &&& forall|i: int, j: int|
        0 <= i < j < rows.len() ==> (#[trigger] rows[i]).id != (#[trigger] rows[j]).id
    &&& forall|i: int, j: int|
        0 <= i < j < rows.len() ==> (#[trigger] rows[i]).name@ != (#[trigger] rows[j]).name@
}

/// Whether a row of `rows` has the name `name`.
pub open spec fn has_name(rows: Seq<Model>, name: Seq<char>) -> bool {
    exists|i: int| 0 <= i < rows.len() && (#[trigger] rows[i]).name@ == name
}

/// Whether a row of `rows` has the identity `id`.
pub open spec fn has_id(rows: Seq<Model>, id: i64) -> bool {
    exists|i: int| 0 <= i < rows.len() && (#[trigger] rows[i]).id == id
}

/// Whether a row of `rows` has the identity `id` and the name `name`.
pub open spec fn has(rows: Seq<Model>, id: i64, name: Seq<char>) -> bool {
    exists|i: int| 0 <= i < rows.len() && (#[trigger] rows[i]).id == id && rows[i].name@ == name
}

/// A row that `rows` has, it still has after one more row.
pub proof fn lemma_has_after_push(rows: Seq<Model>, r: Model, id: i64, name: Seq<char>)
    requires
        has(rows, id, name),
    ensures
        has(rows.push(r), id, name),
{
    let i = choose|i: int| 0 <= i < rows.len() && (#[trigger] rows[i]).id == id && rows[i].name@ == name;
    assert(rows.push(r)[i] == rows[i]);
}

/// A row of `rows` is had by its identity and name.
pub proof fn lemma_has_row(rows: Seq<Model>, i: int)
    requires
        0 <= i < rows.len(),
    ensures
        has(rows, rows[i].id, rows[i].name@),
        has_id(rows, rows[i].id),
{
}

/// The maintainer with the identity `maintainer_id`.
pub fn get_by_id(store: &Store, maintainer_id: &i64) -> (r: Option<Model>)
    ensures
        r is Some <==> has_id(store.maintainers@, *maintainer_id),
        r matches Some(m) ==> store.maintainers@.contains(m) && m.id == *maintainer_id,
{
    let mut i: usize = 0;
    while i < store.maintainers.len()
        invariant
            i <= store.maintainers.len(),
            forall|k: int| 0 <= k < i ==> (#[trigger] store.maintainers@[k]).id != *maintainer_id,
        decreases store.maintainers.len() - i,
    {
        if store.maintainers[i].id == *maintainer_id {
            return Some(store.maintainers[i].duplicate());
        }
        i += 1;
    }
    None
}

/// The maintainer named `name`.
pub fn get_by_name(store: &Store, name: &str) -> (r: Option<Model>)
    ensures
        r is Some <==> has_name(store.maintainers@, name@),
        r matches Some(m) ==> store.maintainers@.contains(m) && m.name@ == name@,
{
    let mut i: usize = 0;
    while i < store.maintainers.len()
        invariant
            i <= store.maintainers.len(),
            forall|k: int| 0 <= k < i ==> (#[trigger] store.maintainers@[k]).name@ != name@,
        decreases store.maintainers.len() - i,
    {
        if same_text(store.maintainers[i].name.as_str(), name) {
            return Some(store.maintainers[i].duplicate());
        }
        i += 1;
    }
    None
}

/// The maintainer named `name`, entered first where the catalog has none.
pub fn add(store: &mut Store, name: &str) -> (r: Model)
    requires
        old(store).wf(),
        old(store).last_id < i64::MAX,
    ensures
        final(store).wf(),
        r.name@ == name@,
        final(store).maintainers@.contains(r),
        has_name(old(store).maintainers@, name@) ==> *final(store) == *old(store),
        !has_name(old(store).maintainers@, name@) ==> {
            &&& r.id == old(store).last_id + 1
            &&& final(store).maintainers@ == old(store).maintainers@.push(r)
            &&& *final(store) == (Store {
                maintainers: final(store).maintainers,
                last_id: r.id,
                ..*old(store)
            })
        },
{
    match get_by_name(store, name) {
        Some(found) => found,
        None => {
            let id = store.fresh_id();
            let row = Model { id, name: name.to_owned() };
            let r = row.duplicate();
            store.maintainers.push(row);
            assert(store.maintainers@[store.maintainers@.len() - 1] == r);
            proof {
                module_maintainer::lemma_linked_after_push(
                    store.module_maintainers@,
                    old(store).maintainers@,
                    r,
                );
            }
            r
        },
    }
}

} // verus!
