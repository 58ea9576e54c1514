//! The maintainers of each module.

use crate::models::maintainer;
use crate::models::module;
use crate::models::store::Store;
use crate::models::system_event::{
    dated,     extends, lemma_said_after_push, lemma_said_in_turn, lemma_said_nothing, one_each,
    register_delete_module_maintainer, register_new_module_maintainer, said, EventKind, Signature,
};
use crate::names::{
    difference, first_seen, lemma_first_seen_step, lemma_minus_contains, lemma_minus_len,
    lemma_take_contains_step, minus,
};
use crate::text::{same_text, texts};
use crate::version::odoo_version_u8_to_string;
use vstd::prelude::*;

verus! {

/// One maintainer of one module. `module_id` is the module's identity and a copy
/// of its technical name, `maintainer_id` the maintainer's identity and a copy of the
/// maintainer's name.
#[derive(Debug)]
pub struct Model {
    pub id: i64,
    pub module_id: (i64, String),
    pub maintainer_id: (i64, String),
}

impl Model {
    /// A copy of the row.
    pub fn duplicate(&self) -> (r: Model)
        ensures
            r == *self,
    {
        Model {
            id: self.id,
            module_id: (self.module_id.0, self.module_id.1.clone()),
            maintainer_id: (self.maintainer_id.0, self.maintainer_id.1.clone()),
        }
    }
}

/// Identities lie in `1..=last_id`.
pub open spec fn ids_below(rows: Seq<Model>, last_id: i64) -> bool {
    forall|i: int| 0 <= i < rows.len() ==> 0 < (#[trigger] rows[i]).id <= last_id
}

/// No identity occurs twice, and no maintainer twice on one module.
pub open spec fn well_keyed(rows: Seq<Model>) -> bool {
    &&& forall|i: int, j: int|
        0 <= i < j < rows.len() ==> (#[trigger] rows[i]).id != (#[trigger] rows[j]).id
    &&& forall|i: int, j: int|
        0 <= i < j < rows.len() ==> !((#[trigger] rows[i]).module_id.0 == (
        #[trigger] rows[j]).module_id.0 && rows[i].maintainer_id.0 == rows[j].maintainer_id.0)
}

/// Every row's maintainer is in `maintainers`, under the name that the row holds.
pub open spec fn linked(rows: Seq<Model>, maintainers: Seq<maintainer::Model>) -> bool {
    forall|i: int|
        0 <= i < rows.len() ==> maintainer::has(
            maintainers,
            (#[trigger] rows[i]).maintainer_id.0,
            rows[i].maintainer_id.1@,
        )
}

/// Whether the module `module_id` has a maintainer named `name`.
pub open spec fn has_name(rows: Seq<Model>, module_id: i64, name: Seq<char>) -> bool {
    exists|e: Model|
        #[trigger] rows.contains(e) && e.module_id.0 == module_id && e.maintainer_id.1@ == name
}

/// The rows stay linked after one more row in `maintainers`.
pub proof fn lemma_linked_after_push(rows: Seq<Model>, maintainers: Seq<maintainer::Model>, r: maintainer::Model)
    requires
        linked(rows, maintainers),
    ensures
        linked(rows, maintainers.push(r)),
{
    assert forall|i: int| 0 <= i < rows.len() implies maintainer::has(
        maintainers.push(r),
        (#[trigger] rows[i]).maintainer_id.0,
        rows[i].maintainer_id.1@,
    ) by {
        maintainer::lemma_has_after_push(maintainers, r, rows[i].maintainer_id.0, rows[i].maintainer_id.1@);
    }
}

/// The rows stay well keyed and below `last_id` without the row at `i`, and
/// linked to `maintainers`.
pub proof fn lemma_after_remove(
    rows: Seq<Model>,
    i: int,
    last_id: i64,
    maintainers: Seq<maintainer::Model>,
)
    requires
        0 <= i < rows.len(),
        well_keyed(rows),
        ids_below(rows, last_id),
        linked(rows, maintainers),
    ensures
        well_keyed(rows.remove(i)),
        ids_below(rows.remove(i), last_id),
        linked(rows.remove(i), maintainers),
        forall|r: Model| rows.remove(i).contains(r) ==> rows.contains(r),
        forall|k: int| 0 <= k < rows.len() && k != i ==> rows.remove(i).contains(#[trigger] rows[k]),
{
    let s = rows.remove(i);
    rows.remove_ensures(i);
    assert forall|k: int| 0 <= k < s.len() implies #[trigger] s[k] == rows[if k < i {
        k
    } else {
        k + 1
    }] by {}
    assert forall|k: int| 0 <= k < rows.len() && k != i implies s.contains(#[trigger] rows[k]) by {
        if k < i {
            assert(s[k] == rows[k]);
        } else {
            assert(s[k - 1] == rows[k]);
        }
    }
    assert forall|a: int, b: int| 0 <= a < b < s.len() implies (#[trigger] s[a]).id != (
    #[trigger] s[b]).id && !(s[a].module_id.0 == s[b].module_id.0 && s[a].maintainer_id.0
        == s[b].maintainer_id.0) by {
        let a2 = if a < i {
            a
        } else {
            a + 1
        };
        let b2 = if b < i {
            b
        } else {
            b + 1
        };
        assert(s[a] == rows[a2]);
        assert(s[b] == rows[b2]);
    }
    assert forall|k: int| 0 <= k < s.len() implies maintainer::has(
        maintainers,
        (#[trigger] s[k]).maintainer_id.0,
        s[k].maintainer_id.1@,
    ) by {
        let k2 = if k < i {
            k
        } else {
            k + 1
        };
        assert(s[k] == rows[k2]);
    }
}

/// The row that links the module `module_id` to the maintainer `maintainer_id`.
pub fn get_by_id(store: &Store, module_id: &i64, maintainer_id: &i64) -> (r: Option<Model>)
    ensures
        r is Some <==> exists|i: int|
            0 <= i < store.module_maintainers@.len() && (#[trigger] store.module_maintainers@[i]).module_id.0
                == *module_id && store.module_maintainers@[i].maintainer_id.0 == *maintainer_id,
        r matches Some(m) ==> store.module_maintainers@.contains(m) && m.module_id.0 == *module_id
            && m.maintainer_id.0 == *maintainer_id,
{
    let mut i: usize = 0;
    while i < store.module_maintainers.len()
        invariant
            i <= store.module_maintainers.len(),
            forall|k: int|
                0 <= k < i ==> !((#[trigger] store.module_maintainers@[k]).module_id.0 == *module_id
                    && store.module_maintainers@[k].maintainer_id.0 == *maintainer_id),
        decreases store.module_maintainers.len() - i,
    {
        if store.module_maintainers[i].module_id.0 == *module_id && store.module_maintainers[i].maintainer_id.0
            == *maintainer_id {
            return Some(store.module_maintainers[i].duplicate());
        }
        i += 1;
    }
    None
}

/// The row that links the module `module_id` to the maintainer named `name`.
pub fn get_by_name(store: &Store, module_id: &i64, name: &str) -> (r: Option<Model>)
    ensures
        r is Some <==> has_name(store.module_maintainers@, *module_id, name@),
        r matches Some(m) ==> store.module_maintainers@.contains(m) && m.module_id.0 == *module_id
            && m.maintainer_id.1@ == name@,
{
    let mut i: usize = 0;
    while i < store.module_maintainers.len()
        invariant
            i <= store.module_maintainers.len(),
            forall|k: int|
                0 <= k < i ==> !((#[trigger] store.module_maintainers@[k]).module_id.0 == *module_id
                    && store.module_maintainers@[k].maintainer_id.1@ == name@),
        decreases store.module_maintainers.len() - i,
    {
        if store.module_maintainers[i].module_id.0 == *module_id && same_text(
            store.module_maintainers[i].maintainer_id.1.as_str(),
            name,
        ) {
            assert(store.module_maintainers@.contains(store.module_maintainers@[i as int]));
            return Some(store.module_maintainers[i].duplicate());
        }
        i += 1;
    }
    None
}

/// The rows of `rows` that belong to the module `module_id`, in order.
pub open spec fn of_module(rows: Seq<Model>, module_id: i64) -> Seq<Model>
    decreases rows.len(),
{
    if rows.len() == 0 {
        Seq::<Model>::empty()
    } else {
        let init = of_module(rows.drop_last(), module_id);
        if rows.last().module_id.0 == module_id {
            init.push(rows.last())
        } else {
            init
        }
    }
}

/// The names of the maintainers of the module `module_id`, in the order of the
/// rows.
pub open spec fn names_of_module(rows: Seq<Model>, module_id: i64) -> Seq<Seq<char>>
    decreases rows.len(),
{
    if rows.len() == 0 {
        Seq::<Seq<char>>::empty()
    } else {
        let init = names_of_module(rows.drop_last(), module_id);
        if rows.last().module_id.0 == module_id {
            init.push(rows.last().maintainer_id.1@)
        } else {
            init
        }
    }
}

/// A name is among the names of a module's maintainers where a row links the
/// module to it.
pub proof fn lemma_names_of_module(rows: Seq<Model>, module_id: i64, name: Seq<char>)
    ensures
        names_of_module(rows, module_id).contains(name) <==> has_name(rows, module_id, name),
    decreases rows.len(),
{
    if rows.len() > 0 {
        let init = rows.drop_last();
        lemma_names_of_module(init, module_id, name);
        let before = names_of_module(init, module_id);
        let last = rows.last();
        if has_name(init, module_id, name) {
            let e = choose|e: Model|
                #[trigger] init.contains(e) && e.module_id.0 == module_id && e.maintainer_id.1@
                    == name;
            let i = choose|i: int| 0 <= i < init.len() && init[i] == e;
            assert(rows[i] == e);
            assert(rows.contains(e));
        }
        if has_name(rows, module_id, name) {
            let e = choose|e: Model|
                #[trigger] rows.contains(e) && e.module_id.0 == module_id && e.maintainer_id.1@
                    == name;
            let i = choose|i: int| 0 <= i < rows.len() && rows[i] == e;
            if i < rows.len() - 1 {
                assert(init[i] == e);
                assert(init.contains(e));
            }
        }
        if last.module_id.0 == module_id {
            let after = before.push(last.maintainer_id.1@);
            assert(after[before.len() as int] == last.maintainer_id.1@);
            assert(rows[rows.len() - 1] == last);
            assert(rows.contains(last));
            if before.contains(name) {
                let i = choose|i: int| 0 <= i < before.len() && before[i] == name;
                assert(after[i] == name);
            }
            if after.contains(name) {
                let i = choose|i: int| 0 <= i < after.len() && after[i] == name;
                if i < before.len() {
                    assert(before[i] == name);
                }
            }
        }
    }
}

/// The rows of the module `module_id`.
pub fn get_by_module_id(store: &Store, module_id: &i64) -> (r: Vec<Model>)
    ensures
        r@ == of_module(store.module_maintainers@, *module_id),
{
    let mut r: Vec<Model> = Vec::new();
    let mut i: usize = 0;
    proof {
        assert(store.module_maintainers@.take(0) =~= Seq::<Model>::empty());
    }
    while i < store.module_maintainers.len()
        invariant
            i <= store.module_maintainers.len(),
            r@ == of_module(store.module_maintainers@.take(i as int), *module_id),
        decreases store.module_maintainers.len() - i,
    {
        proof {
            assert(store.module_maintainers@.take(i + 1).drop_last() =~= store.module_maintainers@.take(
                i as int,
            ));
        }
        if store.module_maintainers[i].module_id.0 == *module_id {
            r.push(store.module_maintainers[i].duplicate());
        }
        i += 1;
    }
    proof {
        assert(store.module_maintainers@.take(store.module_maintainers@.len() as int)
            =~= store.module_maintainers@);
    }
    r
}

/// The names of the maintainers of the module `module_id`.
pub fn get_names_by_module_id(store: &Store, module_id: &i64) -> (r: Vec<String>)
    ensures
        texts(r@) == names_of_module(store.module_maintainers@, *module_id),
{
    let mut r: Vec<String> = Vec::new();
    let mut i: usize = 0;
    proof {
        assert(store.module_maintainers@.take(0) =~= Seq::<Model>::empty());
        assert(texts(r@) =~= Seq::<Seq<char>>::empty());
    }
    while i < store.module_maintainers.len()
        invariant
            i <= store.module_maintainers.len(),
            texts(r@) == names_of_module(store.module_maintainers@.take(i as int), *module_id),
        decreases store.module_maintainers.len() - i,
    {
        proof {
            assert(store.module_maintainers@.take(i + 1).drop_last() =~= store.module_maintainers@.take(
                i as int,
            ));
        }
        if store.module_maintainers[i].module_id.0 == *module_id {
            let ghost before = r@;
            r.push(store.module_maintainers[i].maintainer_id.1.clone());
            assert(texts(r@) =~= texts(before).push(store.module_maintainers@[i as int].maintainer_id.1@));
        }
        i += 1;
    }
    proof {
        assert(store.module_maintainers@.take(store.module_maintainers@.len() as int)
            =~= store.module_maintainers@);
    }
    r
}

/// Links the module `module_id` to the maintainer named `name`, where it is not
/// linked to that name yet; the maintainer is entered first where the catalog
/// has none of that name, and the link is reported.
pub fn add(store: &mut Store, module_id: &i64, name: &str, now: &str) -> (r: Model)
    requires
        old(store).wf(),
        old(store).last_id < i64::MAX - 1,
        module::has_id(old(store).modules@, *module_id),
    ensures
        final(store).wf(),
        r.module_id.0 == *module_id,
        r.maintainer_id.1@ == name@,
        final(store).module_maintainers@.contains(r),
        extends(final(store).system_events@, old(store).system_events@),
        dated(final(store).system_events@, old(store).system_events@, now@),
        has_name(old(store).module_maintainers@, *module_id, name@) ==> *final(store) == *old(store),
        !has_name(old(store).module_maintainers@, *module_id, name@) ==> {
            &&& final(store).module_maintainers@ == old(store).module_maintainers@.push(r)
            &&& said(final(store).system_events@, old(store).system_events@) == one_each(
                EventKind::NewMaintainer,
                seq![name@],
                ""@,
                *module_id,
            )
            &&& final(store).system_events@.last().date@ == now@
            &&& old(store).last_id < final(store).last_id <= old(store).last_id + 2
            &&& *final(store) == (Store {
                maintainers: final(store).maintainers,
                module_maintainers: final(store).module_maintainers,
                system_events: final(store).system_events,
                last_id: final(store).last_id,
                ..*old(store)
            })
        },
{
    proof {
        lemma_said_nothing(store.system_events@);
    }
    match get_by_name(store, module_id, name) {
        Some(found) => found,
        None => {
            let maintainer = maintainer::add(store, name);
            let module = module::get_by_id(store, module_id).unwrap();
            let id = store.fresh_id();
            let row = Model {
                id,
                module_id: (module.id, module.technical_name.clone()),
                maintainer_id: (maintainer.id, maintainer.name),
            };
            let r = row.duplicate();
            let ghost mid = *store;
            store.module_maintainers.push(row);
            proof {
                let rows = mid.module_maintainers@;
                let k = choose|k: int| 0 <= k < mid.maintainers@.len() && mid.maintainers@[k] == maintainer;
                maintainer::lemma_has_row(mid.maintainers@, k);
                assert forall|i: int| 0 <= i < rows.len() implies !((#[trigger] rows[i]).module_id.0
                    == r.module_id.0 && rows[i].maintainer_id.0 == r.maintainer_id.0) by {
                    if rows[i].module_id.0 == r.module_id.0 && rows[i].maintainer_id.0
                        == r.maintainer_id.0 {
                        let x = choose|x: int|
                            0 <= x < mid.maintainers@.len() && (#[trigger] mid.maintainers@[x]).id
                                == rows[i].maintainer_id.0 && mid.maintainers@[x].name@
                                == rows[i].maintainer_id.1@;
                        if x < k {
                            assert(mid.maintainers@[x].id != mid.maintainers@[k].id);
                        } else if k < x {
                            assert(mid.maintainers@[k].id != mid.maintainers@[x].id);
                        }
                        assert(rows[i].maintainer_id.1@ == name@);
                        assert(rows.contains(rows[i]));
                        assert(has_name(old(store).module_maintainers@, *module_id, name@));
                    }
                }
                assert(store.module_maintainers@[store.module_maintainers@.len() - 1] == r);
            }
            let version = odoo_version_u8_to_string(&module.version_odoo);
            let e = register_new_module_maintainer(
                store,
                name,
                *module_id,
                module.technical_name.as_str(),
                module.name.as_str(),
                version.as_str(),
                now,
            );
            proof {
                lemma_said_after_push(old(store).system_events@, old(store).system_events@, e);
                assert(said(store.system_events@, old(store).system_events@) =~= one_each(
                    EventKind::NewMaintainer,
                    seq![name@],
                    ""@,
                    *module_id,
                ));
            }
            r
        },
    }
}

/// Takes the link between the module `module_id` and the maintainer `maintainer_id`
/// away, and says how many rows went.
pub fn delete_by_module_id_maintainer_id(store: &mut Store, module_id: &i64, maintainer_id: &i64) -> (r:
    usize)
    requires
        old(store).wf(),
    ensures
        final(store).wf(),
        r <= 1,
        forall|m: Model|
            final(store).module_maintainers@.contains(m) <==> old(store).module_maintainers@.contains(m)
                && !(m.module_id.0 == *module_id && m.maintainer_id.0 == *maintainer_id),
        old(store).module_maintainers@.len() == final(store).module_maintainers@.len() + r,
        *final(store) == (Store { module_maintainers: final(store).module_maintainers, ..*old(store) }),
{
    let mut i: usize = 0;
    while i < store.module_maintainers.len()
        invariant
            i <= store.module_maintainers.len(),
            *store == *old(store),
            store.wf(),
            forall|k: int|
                0 <= k < i ==> !((#[trigger] store.module_maintainers@[k]).module_id.0 == *module_id
                    && store.module_maintainers@[k].maintainer_id.0 == *maintainer_id),
        decreases store.module_maintainers.len() - i,
    {
        if store.module_maintainers[i].module_id.0 == *module_id && store.module_maintainers[i].maintainer_id.0
            == *maintainer_id {
            proof {
                lemma_after_remove(
                    store.module_maintainers@,
                    i as int,
                    store.last_id,
                    store.maintainers@,
                );
            }
            let gone = store.module_maintainers.remove(i);
            proof {
                let rows = old(store).module_maintainers@;
                assert forall|m: Model|
                    store.module_maintainers@.contains(m) <==> rows.contains(m) && !(m.module_id.0
                        == *module_id && m.maintainer_id.0 == *maintainer_id) by {
                    if store.module_maintainers@.contains(m) {
                        let k = choose|k: int| 0 <= k < rows.len() && rows[k] == m;
                        if m.module_id.0 == *module_id && m.maintainer_id.0 == *maintainer_id {
                            let j = choose|j: int|
                                0 <= j < store.module_maintainers@.len() && store.module_maintainers@[j]
                                    == m;
                            rows.remove_ensures(i as int);
                            let j2 = if j < i {
                                j
                            } else {
                                j + 1
                            };
                            assert(rows[j2] == m);
                            if j2 < i {
                                assert(rows[j2].module_id.0 == rows[i as int].module_id.0);
                            } else {
                                assert(rows[i as int].module_id.0 == rows[j2].module_id.0);
                            }
                        }
                    }
                    if rows.contains(m) && !(m.module_id.0 == *module_id && m.maintainer_id.0
                        == *maintainer_id) {
                        let k = choose|k: int| 0 <= k < rows.len() && rows[k] == m;
                        assert(k != i);
                    }
                }
            }
            return 1;
        }
        i += 1;
    }
    proof {
        assert forall|m: Model| store.module_maintainers@.contains(m) implies !(m.module_id.0
            == *module_id && m.maintainer_id.0 == *maintainer_id) by {
            let k = choose|k: int|
                0 <= k < store.module_maintainers@.len() && store.module_maintainers@[k] == m;
        }
    }
    0
}

/// Takes every link of the module `module_id` away, and says how many rows
/// went.
pub fn delete_by_module_id(store: &mut Store, module_id: &i64) -> (r: usize)
    requires
        old(store).wf(),
    ensures
        final(store).wf(),
        forall|m: Model|
            final(store).module_maintainers@.contains(m) <==> old(store).module_maintainers@.contains(m)
                && m.module_id.0 != *module_id,
        old(store).module_maintainers@.len() == final(store).module_maintainers@.len() + r,
        *final(store) == (Store { module_maintainers: final(store).module_maintainers, ..*old(store) }),
{
    let mut i: usize = 0;
    let mut r: usize = 0;
    while i < store.module_maintainers.len()
        invariant
            i <= store.module_maintainers.len(),
            store.wf(),
            *store == (Store { module_maintainers: store.module_maintainers, ..*old(store) }),
            old(store).module_maintainers@.len() == store.module_maintainers@.len() + r,
            forall|k: int| 0 <= k < i ==> (#[trigger] store.module_maintainers@[k]).module_id.0 != *module_id,
            forall|m: Model| store.module_maintainers@.contains(m) ==> old(store).module_maintainers@.contains(m),
            forall|m: Model|
                old(store).module_maintainers@.contains(m) && m.module_id.0 != *module_id
                    ==> store.module_maintainers@.contains(m),
        decreases store.module_maintainers.len() - i,
    {
        if store.module_maintainers[i].module_id.0 == *module_id {
            let ghost rows = store.module_maintainers@;
            proof {
                lemma_after_remove(rows, i as int, store.last_id, store.maintainers@);
            }
            let gone = store.module_maintainers.remove(i);
            proof {
                assert(old(store).module_maintainers.len() <= usize::MAX);
                rows.remove_ensures(i as int);
                assert forall|m: Model|
                    old(store).module_maintainers@.contains(m) && m.module_id.0
                        != *module_id implies store.module_maintainers@.contains(m) by {
                    let k = choose|k: int| 0 <= k < rows.len() && rows[k] == m;
                    assert(k != i);
                }
            }
            r += 1;
        } else {
            i += 1;
        }
    }
    proof {
        assert forall|m: Model| store.module_maintainers@.contains(m) implies m.module_id.0
            != *module_id by {
            let k = choose|k: int|
                0 <= k < store.module_maintainers@.len() && store.module_maintainers@[k] == m;
        }
    }
    r
}

/// In a well-formed catalog a row leads to the maintainer `a` where it holds
/// the name of `a`.
pub proof fn lemma_row_of(store: Store, e: Model, a: maintainer::Model)
    requires
        store.wf(),
        store.module_maintainers@.contains(e),
        store.maintainers@.contains(a),
    ensures
        e.maintainer_id.0 == a.id <==> e.maintainer_id.1@ == a.name@,
{
    let maintainers = store.maintainers@;
    let i = choose|i: int| 0 <= i < store.module_maintainers@.len() && store.module_maintainers@[i] == e;
    assert(maintainer::has(maintainers, store.module_maintainers@[i].maintainer_id.0, e.maintainer_id.1@));
    let x = choose|x: int|
        0 <= x < maintainers.len() && (#[trigger] maintainers[x]).id == e.maintainer_id.0 && maintainers[x].name@
            == e.maintainer_id.1@;
    let y = choose|y: int| 0 <= y < maintainers.len() && maintainers[y] == a;
    if x < y {
        assert(maintainers[x].id != maintainers[y].id);
        assert(maintainers[x].name@ != maintainers[y].name@);
    } else if y < x {
        assert(maintainers[y].id != maintainers[x].id);
        assert(maintainers[y].name@ != maintainers[x].name@);
    }
}

/// What is said where a module's maintainers are brought in line with `wanted`,
/// the module having had the maintainers `had`: each name that is no longer
/// wanted is reported as lost, in the order of `had`, then each new name as
/// gained, once, in the order of `wanted`.
pub open spec fn said_by_sync(had: Seq<Seq<char>>, wanted: Seq<Seq<char>>, module_id: i64) -> Seq<
    Signature,
> {
    one_each(EventKind::DeletedMaintainer, minus(had, wanted), ""@, module_id) + one_each(
        EventKind::NewMaintainer,
        first_seen(minus(wanted, had)),
        ""@,
        module_id,
    )
}

/// Takes the links between the module `module_id` and the maintainers named in
/// `names` away, and reports each.
fn unlink(store: &mut Store, module: &module::Model, names: &Vec<String>, now: &str)
    requires
        old(store).wf(),
        forall|k: int|
            0 <= k < names@.len() ==> has_name(
                old(store).module_maintainers@,
                module.id,
                #[trigger] texts(names@)[k],
            ),
    ensures
        final(store).wf(),
        forall|m2: i64, n: Seq<char>|
            #[trigger] has_name(final(store).module_maintainers@, m2, n) <==> has_name(
                old(store).module_maintainers@,
                m2,
                n,
            ) && !(m2 == module.id && texts(names@).contains(n)),
        extends(final(store).system_events@, old(store).system_events@),
        dated(final(store).system_events@, old(store).system_events@, now@),
        said(final(store).system_events@, old(store).system_events@) == one_each(
            EventKind::DeletedMaintainer,
            texts(names@),
            ""@,
            module.id,
        ),
        names@.len() == 0 ==> *final(store) == *old(store),
        *final(store) == (Store {
            module_maintainers: final(store).module_maintainers,
            system_events: final(store).system_events,
            ..*old(store)
        }),
{
    let version = odoo_version_u8_to_string(&module.version_odoo);
    let ghost all = texts(names@);
    let mut j: usize = 0;
    proof {
        lemma_said_nothing(store.system_events@);
        assert(all.take(0) =~= Seq::<Seq<char>>::empty());
        assert(said(store.system_events@, old(store).system_events@) =~= one_each(
            EventKind::DeletedMaintainer,
            all.take(0),
            ""@,
            module.id,
        ));
    }
    while j < names.len()
        invariant
            j <= names.len(),
            all == texts(names@),
            store.wf(),
            old(store).wf(),
            forall|k: int|
                0 <= k < names@.len() ==> has_name(
                    old(store).module_maintainers@,
                    module.id,
                    #[trigger] all[k],
                ),
            forall|m2: i64, n: Seq<char>|
                #[trigger] has_name(store.module_maintainers@, m2, n) <==> has_name(
                    old(store).module_maintainers@,
                    m2,
                    n,
                ) && !(m2 == module.id && all.take(j as int).contains(n)),
            extends(store.system_events@, old(store).system_events@),
            dated(store.system_events@, old(store).system_events@, now@),
            said(store.system_events@, old(store).system_events@) == one_each(
                EventKind::DeletedMaintainer,
                all.take(j as int),
                ""@,
                module.id,
            ),
            j == 0 ==> *store == *old(store),
            *store == (Store {
                module_maintainers: store.module_maintainers,
                system_events: store.system_events,
                ..*old(store)
            }),
        decreases names.len() - j,
    {
        let ghost before = *store;
        let ghost name = all[j as int];
        assert(name == names@[j as int]@);
        proof {
            // the maintainer is in the catalog: the module was linked to the name
            let e = choose|e: Model|
                #[trigger] old(store).module_maintainers@.contains(e) && e.module_id.0 == module.id
                    && e.maintainer_id.1@ == name;
            let i = choose|i: int|
                0 <= i < old(store).module_maintainers@.len() && old(store).module_maintainers@[i] == e;
            assert(maintainer::has(
                old(store).maintainers@,
                old(store).module_maintainers@[i].maintainer_id.0,
                e.maintainer_id.1@,
            ));
            let x = choose|x: int|
                0 <= x < store.maintainers@.len() && (#[trigger] store.maintainers@[x]).id
                    == e.maintainer_id.0 && store.maintainers@[x].name@ == e.maintainer_id.1@;
            assert(maintainer::has_name(store.maintainers@, name));
        }
        match maintainer::get_by_name(store, names[j].as_str()) {
            Some(a) => {
                proof {
                    assert forall|e: Model| #[trigger]
                        store.module_maintainers@.contains(e) implies (e.maintainer_id.0 == a.id
                        <==> e.maintainer_id.1@ == name) by {
                        lemma_row_of(*store, e, a);
                    }
                }
                let gone = delete_by_module_id_maintainer_id(store, &module.id, &a.id);
                let e = register_delete_module_maintainer(
                    store,
                    names[j].as_str(),
                    module.id,
                    module.technical_name.as_str(),
                    module.name.as_str(),
                    version.as_str(),
                    now,
                );
                proof {
                    lemma_said_after_push(old(store).system_events@, before.system_events@, e);
                    assert(said(store.system_events@, old(store).system_events@) =~= one_each(
                        EventKind::DeletedMaintainer,
                        all.take(j + 1),
                        ""@,
                        module.id,
                    ));
                    assert forall|m2: i64, n: Seq<char>|
                        #[trigger] has_name(store.module_maintainers@, m2, n) <==> has_name(
                            old(store).module_maintainers@,
                            m2,
                            n,
                        ) && !(m2 == module.id && all.take(j + 1).contains(n)) by {
                        lemma_take_contains_step(all, j as int, n);
                        assert(has_name(before.module_maintainers@, m2, n) <==> has_name(
                            old(store).module_maintainers@,
                            m2,
                            n,
                        ) && !(m2 == module.id && all.take(j as int).contains(n)));
                        if has_name(before.module_maintainers@, m2, n) && !(m2 == module.id && n
                            == name) {
                            let w = choose|w: Model|
                                #[trigger] before.module_maintainers@.contains(w) && w.module_id.0
                                    == m2 && w.maintainer_id.1@ == n;
                            assert(store.module_maintainers@.contains(w));
                        }
                    }
                }
            },
            None => {
                assert(false);
            },
        }
        j += 1;
    }
    proof {
        assert(all.take(names@.len() as int) =~= all);
    }
}

/// Links the module `module_id` to each maintainer named in `names`, and
/// reports each new link.
fn link(store: &mut Store, module_id: &i64, names: &Vec<String>, now: &str)
    requires
        old(store).wf(),
        old(store).last_id + 2 * names@.len() <= i64::MAX,
        module::has_id(old(store).modules@, *module_id),
        forall|k: int|
            0 <= k < names@.len() ==> !has_name(
                old(store).module_maintainers@,
                *module_id,
                #[trigger] texts(names@)[k],
            ),
    ensures
        final(store).wf(),
        forall|m2: i64, n: Seq<char>|
            #[trigger] has_name(final(store).module_maintainers@, m2, n) <==> has_name(
                old(store).module_maintainers@,
                m2,
                n,
            ) || (m2 == *module_id && texts(names@).contains(n)),
        extends(final(store).system_events@, old(store).system_events@),
        dated(final(store).system_events@, old(store).system_events@, now@),
        said(final(store).system_events@, old(store).system_events@) == one_each(
            EventKind::NewMaintainer,
            first_seen(texts(names@)),
            ""@,
            *module_id,
        ),
        names@.len() == 0 ==> *final(store) == *old(store),
        old(store).last_id <= final(store).last_id <= old(store).last_id + 2 * names@.len(),
        *final(store) == (Store {
            maintainers: final(store).maintainers,
            module_maintainers: final(store).module_maintainers,
            system_events: final(store).system_events,
            last_id: final(store).last_id,
            ..*old(store)
        }),
{
    let ghost all = texts(names@);
    let mut j: usize = 0;
    proof {
        lemma_said_nothing(store.system_events@);
        assert(all.take(0) =~= Seq::<Seq<char>>::empty());
        assert(said(store.system_events@, old(store).system_events@) =~= one_each(
            EventKind::NewMaintainer,
            first_seen(all.take(0)),
            ""@,
            *module_id,
        ));
    }
    while j < names.len()
        invariant
            j <= names.len(),
            all == texts(names@),
            store.wf(),
            old(store).last_id + 2 * names@.len() <= i64::MAX,
            old(store).last_id <= store.last_id <= old(store).last_id + 2 * j,
            module::has_id(store.modules@, *module_id),
            forall|k: int|
                0 <= k < names@.len() ==> !has_name(
                    old(store).module_maintainers@,
                    *module_id,
                    #[trigger] all[k],
                ),
            forall|m2: i64, n: Seq<char>|
                #[trigger] has_name(store.module_maintainers@, m2, n) <==> has_name(
                    old(store).module_maintainers@,
                    m2,
                    n,
                ) || (m2 == *module_id && all.take(j as int).contains(n)),
            extends(store.system_events@, old(store).system_events@),
            dated(store.system_events@, old(store).system_events@, now@),
            said(store.system_events@, old(store).system_events@) == one_each(
                EventKind::NewMaintainer,
                first_seen(all.take(j as int)),
                ""@,
                *module_id,
            ),
            j == 0 ==> *store == *old(store),
            *store == (Store {
                maintainers: store.maintainers,
                module_maintainers: store.module_maintainers,
                system_events: store.system_events,
                last_id: store.last_id,
                ..*old(store)
            }),
        decreases names.len() - j,
    {
        let ghost before = *store;
        let ghost name = all[j as int];
        assert(name == names@[j as int]@);
        let r = self::add(store, module_id, names[j].as_str(), now);
        proof {
            lemma_first_seen_step(all, j as int);
            lemma_said_in_turn(
                old(store).system_events@,
                before.system_events@,
                store.system_events@,
            );
            assert(has_name(before.module_maintainers@, *module_id, name) <==> all.take(
                j as int,
            ).contains(name));
            if has_name(before.module_maintainers@, *module_id, name) {
                assert(said(store.system_events@, before.system_events@) =~= Seq::<
                    Signature,
                >::empty()) by {
                    lemma_said_nothing(before.system_events@);
                }
            }
            assert(said(store.system_events@, old(store).system_events@) =~= one_each(
                EventKind::NewMaintainer,
                first_seen(all.take(j + 1)),
                ""@,
                *module_id,
            ));
            assert forall|m2: i64, n: Seq<char>|
                #[trigger] has_name(store.module_maintainers@, m2, n) <==> has_name(
                    old(store).module_maintainers@,
                    m2,
                    n,
                ) || (m2 == *module_id && all.take(j + 1).contains(n)) by {
                lemma_take_contains_step(all, j as int, n);
                assert(has_name(before.module_maintainers@, m2, n) <==> has_name(
                    old(store).module_maintainers@,
                    m2,
                    n,
                ) || (m2 == *module_id && all.take(j as int).contains(n)));
                if !has_name(before.module_maintainers@, *module_id, name) {
                    let rows = before.module_maintainers@;
                    let after = store.module_maintainers@;
                    assert(after[rows.len() as int] == r);
                    if has_name(after, m2, n) {
                        let w = choose|w: Model|
                            #[trigger] after.contains(w) && w.module_id.0 == m2 && w.maintainer_id.1@
                                == n;
                        let i = choose|i: int| 0 <= i < after.len() && after[i] == w;
                        if i < rows.len() {
                            assert(rows[i] == w);
                            assert(rows.contains(w));
                        }
                    }
                    if has_name(rows, m2, n) {
                        let w = choose|w: Model|
                            #[trigger] rows.contains(w) && w.module_id.0 == m2 && w.maintainer_id.1@
                                == n;
                        let i = choose|i: int| 0 <= i < rows.len() && rows[i] == w;
                        assert(after[i] == w);
                        assert(after.contains(w));
                    }
                }
            }
        }
        j += 1;
    }
    proof {
        assert(all.take(names@.len() as int) =~= all);
    }
}

/// Brings the maintainers of the module `module_id` in line with `names`: takes
/// away each link to a name that `names` does not hold, adds a link to each
/// name that the module lacked, and reports each of them.
pub fn sync(store: &mut Store, module_id: &i64, names: &Vec<String>, now: &str)
    requires
        old(store).wf(),
        old(store).last_id + 2 * names@.len() <= i64::MAX,
        module::has_id(old(store).modules@, *module_id),
    ensures
        final(store).wf(),
        forall|m2: i64, n: Seq<char>|
            #[trigger] has_name(final(store).module_maintainers@, m2, n) <==> if m2 == *module_id {
                texts(names@).contains(n)
            } else {
                has_name(old(store).module_maintainers@, m2, n)
            },
        extends(final(store).system_events@, old(store).system_events@),
        dated(final(store).system_events@, old(store).system_events@, now@),
        said(final(store).system_events@, old(store).system_events@) == said_by_sync(
            names_of_module(old(store).module_maintainers@, *module_id),
            texts(names@),
            *module_id,
        ),
        said_by_sync(
            names_of_module(old(store).module_maintainers@, *module_id),
            texts(names@),
            *module_id,
        ).len() == 0 ==> *final(store) == *old(store),
        old(store).last_id <= final(store).last_id <= old(store).last_id + 2 * names@.len(),
        *final(store) == (Store {
            maintainers: final(store).maintainers,
            module_maintainers: final(store).module_maintainers,
            system_events: final(store).system_events,
            last_id: final(store).last_id,
            ..*old(store)
        }),
{
    let module = module::get_by_id(store, module_id).unwrap();
    let stored = get_names_by_module_id(store, module_id);
    let to_remove = difference(&stored, names);
    let to_add = difference(names, &stored);
    let ghost had = texts(stored@);
    let ghost wanted = texts(names@);
    proof {
        assert forall|n: Seq<char>| had.contains(n) <==> has_name(
            old(store).module_maintainers@,
            *module_id,
            n,
        ) by {
            lemma_names_of_module(old(store).module_maintainers@, *module_id, n);
        }
        assert forall|k: int| 0 <= k < to_remove@.len() implies has_name(
            old(store).module_maintainers@,
            module.id,
            #[trigger] texts(to_remove@)[k],
        ) by {
            lemma_minus_contains(had, wanted, texts(to_remove@)[k]);
        }
        assert(minus(wanted, had).len() <= wanted.len()) by {
            lemma_minus_len(wanted, had);
        }
    }
    unlink(store, &module, &to_remove, now);
    let ghost mid = *store;
    proof {
        assert forall|k: int| 0 <= k < to_add@.len() implies !has_name(
            mid.module_maintainers@,
            *module_id,
            #[trigger] texts(to_add@)[k],
        ) by {
            lemma_minus_contains(wanted, had, texts(to_add@)[k]);
        }
    }
    link(store, module_id, &to_add, now);
    proof {
        lemma_said_in_turn(old(store).system_events@, mid.system_events@, store.system_events@);
        assert forall|m2: i64, n: Seq<char>|
            #[trigger] has_name(store.module_maintainers@, m2, n) <==> if m2 == *module_id {
                wanted.contains(n)
            } else {
                has_name(old(store).module_maintainers@, m2, n)
            } by {
            lemma_minus_contains(had, wanted, n);
            lemma_minus_contains(wanted, had, n);
            assert(has_name(store.module_maintainers@, m2, n) <==> has_name(mid.module_maintainers@, m2, n)
                || (m2 == *module_id && texts(to_add@).contains(n)));
            assert(has_name(mid.module_maintainers@, m2, n) <==> has_name(
                old(store).module_maintainers@,
                m2,
                n,
            ) && !(m2 == module.id && texts(to_remove@).contains(n)));
        }
        if said_by_sync(had, wanted, *module_id).len() == 0 {
            assert(minus(had, wanted).len() == 0);
            assert(minus(wanted, had).len() == 0) by {
                if minus(wanted, had).len() > 0 {
                    let f = first_seen(minus(wanted, had));
                    crate::names::lemma_first_seen_contains(minus(wanted, had), minus(wanted, had)[0]);
                    assert(f.contains(minus(wanted, had)[0]));
                }
            }
        }
    }
}

} // verus!
