//! Committers: free-text names, each kept once.

use crate::models::module_committer;
use crate::models::store::Store;
use crate::text::same_text;
use vstd::prelude::*;

verus! {

#[derive(Debug)]
pub struct Model {
    pub id: i64,
    pub name: String,
}

impl Model {
    /// A copy of the row.
    pub fn duplicate(&self) -> (r: Model)
        ensures
            r == *self,
    {
        Model { id: self.id, name: self.name.clone() }
    }
}

/// Identities lie in `1..=last_id`.
pub open spec fn ids_below(rows: Seq<Model>, last_id: i64) -> bool {
    forall|i: int| 0 <= i < rows.len() ==> 0 < (#[trigger] rows[i]).id <= last_id
}

/// No identity and no name occurs twice.
pub open spec fn well_keyed(rows: Seq<Model>) -> bool {
    &&& forall|i: int, j: int|
        0 <= i < j < rows.len() ==> (#[trigger] rows[i]).id != (#[trigger] rows[j]).id
    &&& forall|i: int, j: int|
        0 <= i < j < rows.len() ==> (#[trigger] rows[i]).name@ != (#[trigger] rows[j]).name@
}

/// Whether a row of `rows` has the name `name`.
pub open spec fn has_name(rows: Seq<Model>, name: Seq<char>) -> bool {
    exists|i: int| 0 <= i < rows.len() && (#[trigger] rows[i]).name@ == name
}

/// Whether a row of `rows` has the identity `id`.
pub open spec fn has_id(rows: Seq<Model>, id: i64) -> bool {
    exists|i: int| 0 <= i < rows.len() && (#[trigger] rows[i]).id == id
}

/// Whether a row of `rows` has the identity `id` and the name `name`.
pub open spec fn has(rows: Seq<Model>, id: i64, name: Seq<char>) -> bool {
    exists|i: int| 0 <= i < rows.len() && (#[trigger] rows[i]).id == id && rows[i].name@ == name
}

/// A row that `rows` has, it still has after one more row.
pub proof fn lemma_has_after_push(rows: Seq<Model>, r: Model, id: i64, name: Seq<char>)
    requires
        has(rows, id, name),
    ensures
        has(rows.push(r), id, name),
{
    let i = choose|i: int| 0 <= i < rows.len() && (#[trigger] rows[i]).id == id && rows[i].name@ == name;
    assert(rows.push(r)[i] == rows[i]);
}

/// A row of `rows` is had by its identity and name.
pub proof fn lemma_has_row(rows: Seq<Model>, i: int)
    requires
        0 <= i < rows.len(),
    ensures
        has(rows, rows[i].id, rows[i].name@),
        has_id(rows, rows[i].id),
{
}

/// The committer with the identity `committer_id`.
pub fn get_by_id(store: &Store, committer_id: &i64) -> (r: Option<Model>)
    ensures
        r is Some <==> has_id(store.committers@, *committer_id),
        r matches Some(m) ==> store.committers@.contains(m) && m.id == *committer_id,
{
    let mut i: usize = 0;
    while i < store.committers.len()
        invariant
            i <= store.committers.len(),
            forall|k: int| 0 <= k < i ==> (#[trigger] store.committers@[k]).id != *committer_id,
        decreases store.committers.len() - i,
    {
        if store.committers[i].id == *committer_id {
            return Some(store.committers[i].duplicate());
        }
        i += 1;
    }
    None
}

/// The committer named `name`.
pub fn get_by_name(store: &Store, name: &str) -> (r: Option<Model>)
    ensures
        r is Some <==> has_name(store.committers@, name@),
        r matches Some(m) ==> store.committers@.contains(m) && m.name@ == name@,
{
    let mut i: usize = 0;
    while i < store.committers.len()
        invariant
            i <= store.committers.len(),
            forall|k: int| 0 <= k < i ==> (#[trigger] store.committers@[k]).name@ != name@,
        decreases store.committers.len() - i,
    {
        if same_text(store.committers[i].name.as_str(), name) {
            return Some(store.committers[i].duplicate());
        }
        i += 1;
    }
    None
}

/// The committer named `name`, entered first where the catalog has none.
pub fn add(store: &mut Store, name: &str) -> (r: Model)
    requires
        old(store).wf(),
        old(store).last_id < i64::MAX,
    ensures
        final(store).wf(),
        r.name@ == name@,
        final(store).committers@.contains(r),
        has_name(old(store).committers@, name@) ==> *final(store) == *old(store),
        !has_name(old(store).committers@, name@) ==> {
            &&& r.id == old(store).last_id + 1
            &&& final(store).committers@ == old(store).committers@.push(r)
            &&& *final(store) == (Store {
                committers: final(store).committers,
                last_id: r.id,
                ..*old(store)
            })
        },
{
    match get_by_name(store, name) {
        Some(found) => found,
        None => {
            let id = store.fresh_id();
            let row = Model { id, name: name.to_owned() };
            let r = row.duplicate();
            store.committers.push(row);
            assert(store.committers@[store.committers@.len() - 1] == r);
            proof {
                module_committer::lemma_linked_after_push(
                    store.module_committers@,
                    old(store).committers@,
                    r,
                );
            }
            r
        },
    }
}

} // verus!
