//! Organizations: the owners of repositories, each name kept once.

use crate::models::gh_repository;
use crate::models::store::Store;
use crate::models::system_event::{
    dated,     extends, new_organization_message, one_each, register_new_gh_organization, said, EventKind,
    lemma_said_after_push, lemma_said_nothing,
};
use crate::text::same_text;
use vstd::prelude::*;

verus! {

#[derive(Debug)]
pub struct Model {
    pub id: i64,
    pub name: String,
}

impl Model {
    /// A copy of the row.
    pub fn duplicate(&self) -> (r: Model)
        ensures
            r == *self,
    {
        Model { id: self.id, name: self.name.clone() }
    }
}

/// Identities lie in `1..=last_id`.
pub open spec fn ids_below(rows: Seq<Model>, last_id: i64) -> bool {
    forall|i: int| 0 <= i < rows.len() ==> 0 < (#[trigger] rows[i]).id <= last_id
}

/// No identity and no name occurs twice.
pub open spec fn well_keyed(rows: Seq<Model>) -> bool {
    &&& forall|i: int, j: int|
        0 <= i < j < rows.len() ==> (#[trigger] rows[i]).id != (#[trigger] rows[j]).id
    &&& forall|i: int, j: int|
        0 <= i < j < rows.len() ==> (#[trigger] rows[i]).name@ != (#[trigger] rows[j]).name@
}

/// Whether a row of `rows` has the name `name`.
pub open spec fn has_name(rows: Seq<Model>, name: Seq<char>) -> bool {
    exists|i: int| 0 <= i < rows.len() && (#[trigger] rows[i]).name@ == name
}

/// Whether a row of `rows` has the identity `id`.
pub open spec fn has_id(rows: Seq<Model>, id: i64) -> bool {
    exists|i: int| 0 <= i < rows.len() && (#[trigger] rows[i]).id == id
}

/// Whether a row of `rows` has the identity `id` and the name `name`.
pub open spec fn has(rows: Seq<Model>, id: i64, name: Seq<char>) -> bool {
    exists|i: int| 0 <= i < rows.len() && (#[trigger] rows[i]).id == id && rows[i].name@ == name
}

/// A row that `rows` has, it still has after one more row.
pub proof fn lemma_has_after_push(rows: Seq<Model>, r: Model, id: i64, name: Seq<char>)
    requires
        has(rows, id, name),
    ensures
        has(rows.push(r), id, name),
{
    let i = choose|i: int| 0 <= i < rows.len() && (#[trigger] rows[i]).id == id && rows[i].name@ == name;
    assert(rows.push(r)[i] == rows[i]);
}

/// A row of `rows` is had by its identity and name.
pub proof fn lemma_has_row(rows: Seq<Model>, i: int)
    requires
        0 <= i < rows.len(),
    ensures
        has(rows, rows[i].id, rows[i].name@),
        has_id(rows, rows[i].id),
{
}

/// The organization named `name`.
pub fn get_by_name(store: &Store, name: &str) -> (r: Option<Model>)
    ensures
        r is Some <==> has_name(store.organizations@, name@),
        r matches Some(m) ==> store.organizations@.contains(m) && m.name@ == name@,
{
    let mut i: usize = 0;
    while i < store.organizations.len()
        invariant
            i <= store.organizations.len(),
            forall|k: int| 0 <= k < i ==> (#[trigger] store.organizations@[k]).name@ != name@,
        decreases store.organizations.len() - i,
    {
        if same_text(store.organizations[i].name.as_str(), name) {
            return Some(store.organizations[i].duplicate());
        }
        i += 1;
    }
    None
}

/// The organization with the identity `id`.
pub fn get_by_id(store: &Store, id: &i64) -> (r: Option<Model>)
    ensures
        r is Some <==> has_id(store.organizations@, *id),
        r matches Some(m) ==> store.organizations@.contains(m) && m.id == *id,
{
    let mut i: usize = 0;
    while i < store.organizations.len()
        invariant
            i <= store.organizations.len(),
            forall|k: int| 0 <= k < i ==> (#[trigger] store.organizations@[k]).id != *id,
        decreases store.organizations.len() - i,
    {
        if store.organizations[i].id == *id {
            return Some(store.organizations[i].duplicate());
        }
        i += 1;
    }
    None
}

/// The organization named `name`, entered first where the catalog has none;
/// that is reported.
pub fn add(store: &mut Store, name: &str, now: &str) -> (r: Model)
    requires
        old(store).wf(),
        old(store).last_id < i64::MAX,
    ensures
        final(store).wf(),
        r.name@ == name@,
        final(store).organizations@.contains(r),
        extends(final(store).system_events@, old(store).system_events@),
        dated(final(store).system_events@, old(store).system_events@, now@),
        has_name(old(store).organizations@, name@) ==> *final(store) == *old(store),
        !has_name(old(store).organizations@, name@) ==> {
            &&& r.id == old(store).last_id + 1
            &&& final(store).organizations@ == old(store).organizations@.push(r)
            &&& said(final(store).system_events@, old(store).system_events@) == one_each(
                EventKind::NewOrganization,
                seq![name@],
                ""@,
                0,
            )
            &&& final(store).system_events@.last().message@ == new_organization_message(name@)
            &&& final(store).system_events@.last().date@ == now@
            &&& *final(store) == (Store {
                organizations: final(store).organizations,
                system_events: final(store).system_events,
                last_id: r.id,
                ..*old(store)
            })
        },
{
    proof {
        lemma_said_nothing(store.system_events@);
    }
    match get_by_name(store, name) {
        Some(found) => found,
        None => {
            let id = store.fresh_id();
            let row = Model { id, name: name.to_owned() };
            let r = row.duplicate();
            store.organizations.push(row);
            assert(store.organizations@[store.organizations@.len() - 1] == r);
            proof {
                gh_repository::lemma_owned_after_push(
                    store.repositories@,
                    old(store).organizations@,
                    r,
                );
            }
            let e = register_new_gh_organization(store, name, now);
            proof {
                lemma_said_after_push(old(store).system_events@, old(store).system_events@, e);
                assert(said(store.system_events@, old(store).system_events@) =~= one_each(
                    EventKind::NewOrganization,
                    seq![name@],
                    ""@,
                    0,
                ));
            }
            r
        },
    }
}

} // verus!
