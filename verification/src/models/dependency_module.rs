//! The dependencies of each module: the edges of the dependency graph.

use crate::models::dependency;
use crate::models::dependency_type;
use crate::models::module;
use crate::models::store::Store;
use crate::models::system_event::{
    dated,     count_of, extends, lemma_count_of_both, lemma_count_of_one_each, lemma_said_after_push,
    lemma_said_in_turn, lemma_said_nothing, one_each,
    register_delete_module_dependency, register_new_dependency_module, said, EventKind,
    Signature,
};
use crate::names::{
    difference, distinct, first_seen, lemma_difference_counts, lemma_first_seen_contains,
    lemma_first_seen_step,
    lemma_minus_contains, lemma_minus_len, lemma_take_contains_step, minus,
};
use crate::text::texts;
use crate::version::odoo_version_u8_to_string;
use vstd::prelude::*;

verus! {

/// One dependency of one module. `dependency_id` is the dependency's identity
/// and a copy of its name, `module_id` the module's identity and a copy of
/// its technical name.
#[derive(Debug)]
pub struct Model {
    pub id: i64,
    pub dependency_id: (i64, String),
    pub module_id: (i64, String),
}

impl Model {
    /// A copy of the row.
    pub fn duplicate(&self) -> (r: Model)
        ensures
            r == *self,
    {
        Model {
            id: self.id,
            dependency_id: (self.dependency_id.0, self.dependency_id.1.clone()),
            module_id: (self.module_id.0, self.module_id.1.clone()),
        }
    }
}

/// Identities lie in `1..=last_id`.
pub open spec fn ids_below(rows: Seq<Model>, last_id: i64) -> bool {
    forall|i: int| 0 <= i < rows.len() ==> 0 < (#[trigger] rows[i]).id <= last_id
}

/// No identity occurs twice, and no dependency twice on one module.
pub open spec fn well_keyed(rows: Seq<Model>) -> bool {
    &&& forall|i: int, j: int|
        0 <= i < j < rows.len() ==> (#[trigger] rows[i]).id != (#[trigger] rows[j]).id
    &&& forall|i: int, j: int|
        0 <= i < j < rows.len() ==> !((#[trigger] rows[i]).module_id.0 == (
        #[trigger] rows[j]).module_id.0 && rows[i].dependency_id.0 == rows[j].dependency_id.0)
}

/// Every row's dependency is in `dependencies`, under the name that the row
/// holds.
pub open spec fn linked(rows: Seq<Model>, dependencies: Seq<dependency::Model>) -> bool {
    forall|i: int|
        0 <= i < rows.len() ==> dependency::has(
            dependencies,
            (#[trigger] rows[i]).dependency_id.0,
            rows[i].dependency_id.1@,
        )
}

/// Whether a row of `rows` has the identity `id`.
pub open spec fn has_id(rows: Seq<Model>, id: i64) -> bool {
    exists|i: int| 0 <= i < rows.len() && (#[trigger] rows[i]).id == id
}

/// The rows stay linked after one more row in `dependencies`.
pub proof fn lemma_linked_after_push(rows: Seq<Model>, dependencies: Seq<dependency::Model>, r: dependency::Model)
    requires
        linked(rows, dependencies),
    ensures
        linked(rows, dependencies.push(r)),
{
    assert forall|i: int| 0 <= i < rows.len() implies dependency::has(
        dependencies.push(r),
        (#[trigger] rows[i]).dependency_id.0,
        rows[i].dependency_id.1@,
    ) by {
        dependency::lemma_has_after_push(dependencies, r, rows[i].dependency_id.0, rows[i].dependency_id.1@);
    }
}

/// The rows stay well keyed and below `last_id` without the row at `i`, and
/// linked to `dependencies`.
pub proof fn lemma_after_remove(
    rows: Seq<Model>,
    i: int,
    last_id: i64,
    dependencies: Seq<dependency::Model>,
)
    requires
        0 <= i < rows.len(),
        well_keyed(rows),
        ids_below(rows, last_id),
        linked(rows, dependencies),
    ensures
        well_keyed(rows.remove(i)),
        ids_below(rows.remove(i), last_id),
        linked(rows.remove(i), dependencies),
        forall|r: Model| rows.remove(i).contains(r) ==> rows.contains(r),
        forall|k: int| 0 <= k < rows.len() && k != i ==> rows.remove(i).contains(#[trigger] rows[k]),
        !rows.remove(i).contains(rows[i]),
{
    let s = rows.remove(i);
    rows.remove_ensures(i);
    assert forall|k: int| 0 <= k < s.len() implies #[trigger] s[k] == rows[if k < i {
        k
    } else {
        k + 1
    }] by {}
    assert forall|k: int| 0 <= k < rows.len() && k != i implies s.contains(#[trigger] rows[k]) by {
        if k < i {
            assert(s[k] == rows[k]);
        } else {
            assert(s[k - 1] == rows[k]);
        }
    }
    assert forall|a: int, b: int| 0 <= a < b < s.len() implies (#[trigger] s[a]).id != (
    #[trigger] s[b]).id && !(s[a].module_id.0 == s[b].module_id.0 && s[a].dependency_id.0
        == s[b].dependency_id.0) by {
        let a2 = if a < i {
            a
        } else {
            a + 1
        };
        let b2 = if b < i {
            b
        } else {
            b + 1
        };
        assert(s[a] == rows[a2]);
        assert(s[b] == rows[b2]);
    }
    assert forall|k: int| 0 <= k < s.len() implies dependency::has(
        dependencies,
        (#[trigger] s[k]).dependency_id.0,
        s[k].dependency_id.1@,
    ) by {
        let k2 = if k < i {
            k
        } else {
            k + 1
        };
        assert(s[k] == rows[k2]);
    }
    if s.contains(rows[i]) {
        let k = choose|k: int| 0 <= k < s.len() && s[k] == rows[i];
        let k2 = if k < i {
            k
        } else {
            k + 1
        };
        assert(s[k] == rows[k2]);
        if k2 < i {
            assert(rows[k2].id != rows[i].id);
        } else {
            assert(rows[i].id != rows[k2].id);
        }
    }
}

/// Whether the module `module_id` has a dependency of the kind `dep_type_id`
/// named `name`.
pub open spec fn has_name(
    rows: Seq<Model>,
    dependencies: Seq<dependency::Model>,
    module_id: i64,
    dep_type_id: i64,
    name: Seq<char>,
) -> bool {
    exists|e: Model|
        #[trigger] rows.contains(e) && e.module_id.0 == module_id && dependency::kind_of(
            dependencies,
            e.dependency_id.0,
        ) == dep_type_id && e.dependency_id.1@ == name
}

/// The names of the dependencies of the kind `dep_type_id` of the module
/// `module_id`, in the order of the rows.
pub open spec fn names_of_module(
    rows: Seq<Model>,
    dependencies: Seq<dependency::Model>,
    module_id: i64,
    dep_type_id: i64,
) -> Seq<Seq<char>>
    decreases rows.len(),
{
    if rows.len() == 0 {
        Seq::<Seq<char>>::empty()
    } else {
        let init = names_of_module(rows.drop_last(), dependencies, module_id, dep_type_id);
        if rows.last().module_id.0 == module_id && dependency::kind_of(
            dependencies,
            rows.last().dependency_id.0,
        ) == dep_type_id {
            init.push(rows.last().dependency_id.1@)
        } else {
            init
        }
    }
}

/// A name is among the names of a module's dependencies of a kind where a
/// row links the module to it.
pub proof fn lemma_names_of_module(
    rows: Seq<Model>,
    dependencies: Seq<dependency::Model>,
    module_id: i64,
    dep_type_id: i64,
    name: Seq<char>,
)
    ensures
        names_of_module(rows, dependencies, module_id, dep_type_id).contains(name) <==> has_name(
            rows,
            dependencies,
            module_id,
            dep_type_id,
            name,
        ),
    decreases rows.len(),
{
    if rows.len() > 0 {
        let init = rows.drop_last();
        lemma_names_of_module(init, dependencies, module_id, dep_type_id, name);
        let before = names_of_module(init, dependencies, module_id, dep_type_id);
        let last = rows.last();
        let fits = last.module_id.0 == module_id && dependency::kind_of(
            dependencies,
            last.dependency_id.0,
        ) == dep_type_id;
        if has_name(init, dependencies, module_id, dep_type_id, name) {
            let e = choose|e: Model|
                #[trigger] init.contains(e) && e.module_id.0 == module_id && dependency::kind_of(
                    dependencies,
                    e.dependency_id.0,
                ) == dep_type_id && e.dependency_id.1@ == name;
            let i = choose|i: int| 0 <= i < init.len() && init[i] == e;
            assert(rows[i] == e);
            assert(rows.contains(e));
        }
        if has_name(rows, dependencies, module_id, dep_type_id, name) {
            let e = choose|e: Model|
                #[trigger] rows.contains(e) && e.module_id.0 == module_id && dependency::kind_of(
                    dependencies,
                    e.dependency_id.0,
                ) == dep_type_id && e.dependency_id.1@ == name;
            let i = choose|i: int| 0 <= i < rows.len() && rows[i] == e;
            if i < rows.len() - 1 {
                assert(init[i] == e);
                assert(init.contains(e));
            }
        }
        if fits {
            let after = before.push(last.dependency_id.1@);
            assert(after[before.len() as int] == last.dependency_id.1@);
            assert(rows[rows.len() - 1] == last);
            assert(rows.contains(last));
            if before.contains(name) {
                let i = choose|i: int| 0 <= i < before.len() && before[i] == name;
                assert(after[i] == name);
            }
            if after.contains(name) {
                let i = choose|i: int| 0 <= i < after.len() && after[i] == name;
                if i < before.len() {
                    assert(before[i] == name);
                }
            }
        }
    }
}

/// The edge with the identity `id`.
pub fn get_by_id(store: &Store, id: &i64) -> (r: Option<Model>)
    ensures
        r is Some <==> has_id(store.dependency_modules@, *id),
        r matches Some(m) ==> store.dependency_modules@.contains(m) && m.id == *id,
{
    let mut i: usize = 0;
    while i < store.dependency_modules.len()
        invariant
            i <= store.dependency_modules.len(),
            forall|k: int| 0 <= k < i ==> (#[trigger] store.dependency_modules@[k]).id != *id,
        decreases store.dependency_modules.len() - i,
    {
        if store.dependency_modules[i].id == *id {
            return Some(store.dependency_modules[i].duplicate());
        }
        i += 1;
    }
    None
}

/// Whether an edge links the module `module_id` to the dependency
/// `dependency_id`.
pub open spec fn has_edge(rows: Seq<Model>, dependency_id: i64, module_id: i64) -> bool {
    exists|i: int|
        0 <= i < rows.len() && (#[trigger] rows[i]).module_id.0 == module_id
            && rows[i].dependency_id.0 == dependency_id
}

/// The edge that links the module `module_id` to the dependency
/// `dependency_id`.
pub fn get_by_dependency_id_module_id(store: &Store, dependency_id: &i64, module_id: &i64) -> (r:
    Option<Model>)
    ensures
        r is Some <==> has_edge(store.dependency_modules@, *dependency_id, *module_id),
        r matches Some(m) ==> store.dependency_modules@.contains(m) && m.module_id.0 == *module_id
            && m.dependency_id.0 == *dependency_id,
{
    let mut i: usize = 0;
    while i < store.dependency_modules.len()
        invariant
            i <= store.dependency_modules.len(),
            forall|k: int|
                0 <= k < i ==> !((#[trigger] store.dependency_modules@[k]).module_id.0 == *module_id
                    && store.dependency_modules@[k].dependency_id.0 == *dependency_id),
        decreases store.dependency_modules.len() - i,
    {
        if store.dependency_modules[i].module_id.0 == *module_id
            && store.dependency_modules[i].dependency_id.0 == *dependency_id {
            return Some(store.dependency_modules[i].duplicate());
        }
        i += 1;
    }
    None
}

/// The names of the dependencies of the kind `dep_type_id` of the module
/// `module_id`.
pub fn get_names(store: &Store, module_id: &i64, dep_type_id: &i64) -> (r: Vec<String>)
    requires
        store.wf(),
    ensures
        texts(r@) == names_of_module(
            store.dependency_modules@,
            store.dependencies@,
            *module_id,
            *dep_type_id,
        ),
{
    let mut r: Vec<String> = Vec::new();
    let mut i: usize = 0;
    proof {
        assert(store.dependency_modules@.take(0) =~= Seq::<Model>::empty());
        assert(texts(r@) =~= Seq::<Seq<char>>::empty());
    }
    while i < store.dependency_modules.len()
        invariant
            i <= store.dependency_modules.len(),
            store.wf(),
            texts(r@) == names_of_module(
                store.dependency_modules@.take(i as int),
                store.dependencies@,
                *module_id,
                *dep_type_id,
            ),
        decreases store.dependency_modules.len() - i,
    {
        proof {
            assert(store.dependency_modules@.take(i + 1).drop_last()
                =~= store.dependency_modules@.take(i as int));
        }
        if store.dependency_modules[i].module_id.0 == *module_id {
            let dep = dependency::get_by_id(store, &store.dependency_modules[i].dependency_id.0);
            proof {
                let e = store.dependency_modules@[i as int];
                assert(dependency::has(store.dependencies@, e.dependency_id.0, e.dependency_id.1@));
                let k = choose|k: int|
                    0 <= k < store.dependencies@.len() && store.dependencies@[k] == dep->0;
                dependency::lemma_kind_of(store.dependencies@, k);
            }
            match dep {
                Some(d) => {
                    if d.dependency_type_id.0 == *dep_type_id {
                        let ghost before = r@;
                        r.push(store.dependency_modules[i].dependency_id.1.clone());
                        assert(texts(r@) =~= texts(before).push(
                            store.dependency_modules@[i as int].dependency_id.1@,
                        ));
                    }
                },
                None => {},
            }
        }
        i += 1;
    }
    proof {
        assert(store.dependency_modules@.take(store.dependency_modules@.len() as int)
            =~= store.dependency_modules@);
    }
    r
}

/// In a well-formed catalog an edge leads to the dependency `d` where it
/// holds the name of `d` and leads to a dependency of the kind of `d`.
pub proof fn lemma_edge_of(store: Store, e: Model, d: dependency::Model)
    requires
        store.wf(),
        store.dependency_modules@.contains(e),
        store.dependencies@.contains(d),
    ensures
        e.dependency_id.0 == d.id <==> e.dependency_id.1@ == d.name@ && dependency::kind_of(
            store.dependencies@,
            e.dependency_id.0,
        ) == d.dependency_type_id.0,
{
    let deps = store.dependencies@;
    let i = choose|i: int| 0 <= i < store.dependency_modules@.len() && store.dependency_modules@[i] == e;
    assert(dependency::has(deps, store.dependency_modules@[i].dependency_id.0, e.dependency_id.1@));
    let x = choose|x: int|
        0 <= x < deps.len() && (#[trigger] deps[x]).id == e.dependency_id.0 && deps[x].name@
            == e.dependency_id.1@;
    let y = choose|y: int| 0 <= y < deps.len() && deps[y] == d;
    dependency::lemma_kind_of(deps, x);
    if x < y {
        assert(deps[x].id != deps[y].id);
        assert(!(deps[x].name@ == deps[y].name@ && deps[x].dependency_type_id.0
            == deps[y].dependency_type_id.0));
    } else if y < x {
        assert(deps[y].id != deps[x].id);
        assert(!(deps[y].name@ == deps[x].name@ && deps[y].dependency_type_id.0
            == deps[x].dependency_type_id.0));
    }
}

/// Links the module `module_id` to the dependency of the kind `dep_type_id`
/// named `name`, where it is not linked to it yet; the dependency is entered
/// first where the catalog has none such, and the link is reported.
pub fn add(store: &mut Store, dep_type_id: &i64, name: &str, module_id: &i64, now: &str) -> (r:
    Model)
    requires
        old(store).wf(),
        old(store).last_id < i64::MAX - 1,
        dependency_type::is_id(*dep_type_id),
        module::has_id(old(store).modules@, *module_id),
    ensures
        final(store).wf(),
        r.module_id.0 == *module_id,
        r.dependency_id.1@ == name@,
        dependency::kind_of(final(store).dependencies@, r.dependency_id.0) == *dep_type_id,
        final(store).dependency_modules@.contains(r),
        forall|e: Model| #[trigger]
            old(store).dependency_modules@.contains(e) ==> final(store).dependency_modules@.contains(
                e,
            ) && dependency::kind_of(final(store).dependencies@, e.dependency_id.0)
                == dependency::kind_of(old(store).dependencies@, e.dependency_id.0),
        extends(final(store).system_events@, old(store).system_events@),
        dated(final(store).system_events@, old(store).system_events@, now@),
        forall|m2: i64, t2: i64, n2: Seq<char>|
            #[trigger] has_name(
                final(store).dependency_modules@,
                final(store).dependencies@,
                m2,
                t2,
                n2,
            ) <==> has_name(old(store).dependency_modules@, old(store).dependencies@, m2, t2, n2)
                || (m2 == *module_id && t2 == *dep_type_id && n2 == name@),
        has_name(
            old(store).dependency_modules@,
            old(store).dependencies@,
            *module_id,
            *dep_type_id,
            name@,
        ) ==> *final(store) == *old(store),
        !has_name(
            old(store).dependency_modules@,
            old(store).dependencies@,
            *module_id,
            *dep_type_id,
            name@,
        ) ==> {
            &&& final(store).dependency_modules@ == old(store).dependency_modules@.push(r)
            &&& r.id == final(store).last_id
            &&& said(final(store).system_events@, old(store).system_events@) == one_each(
                EventKind::NewDependency,
                seq![name@],
                dependency_type::name_of(*dep_type_id),
                *module_id,
            )
            &&& final(store).system_events@.last().date@ == now@
            &&& old(store).last_id < final(store).last_id <= old(store).last_id + 2
            &&& *final(store) == (Store {
                dependencies: final(store).dependencies,
                dependency_modules: final(store).dependency_modules,
                system_events: final(store).system_events,
                last_id: final(store).last_id,
                ..*old(store)
            })
        },
{
    proof {
        lemma_said_nothing(store.system_events@);
    }
    let dep = dependency::add(store, dep_type_id, name);
    let ghost mid = *store;
    proof {
        let k = choose|k: int| 0 <= k < mid.dependencies@.len() && mid.dependencies@[k] == dep;
        dependency::lemma_kind_of(mid.dependencies@, k);
        dependency::lemma_has_row(mid.dependencies@, k);
        // the kinds of the dependencies that edges lead to are what they were
        assert forall|e: Model| #[trigger] mid.dependency_modules@.contains(e) implies dependency::kind_of(
            mid.dependencies@,
            e.dependency_id.0,
        ) == dependency::kind_of(old(store).dependencies@, e.dependency_id.0) by {
            if mid.dependencies@ != old(store).dependencies@ {
                let i = choose|i: int|
                    0 <= i < mid.dependency_modules@.len() && mid.dependency_modules@[i] == e;
                assert(dependency::has(
                    old(store).dependencies@,
                    old(store).dependency_modules@[i].dependency_id.0,
                    old(store).dependency_modules@[i].dependency_id.1@,
                ));
                dependency::lemma_kind_of_after_push(
                    old(store).dependencies@,
                    dep,
                    e.dependency_id.0,
                );
            }
        }
        assert forall|e: Model| #[trigger] mid.dependency_modules@.contains(e) implies (
        e.dependency_id.0 == dep.id <==> e.dependency_id.1@ == name@ && dependency::kind_of(
            mid.dependencies@,
            e.dependency_id.0,
        ) == *dep_type_id) by {
            lemma_edge_of(mid, e, dep);
        }
    }
    match get_by_dependency_id_module_id(store, &dep.id, module_id) {
        Some(found) => {
            proof {
                assert(has_name(
                    old(store).dependency_modules@,
                    old(store).dependencies@,
                    *module_id,
                    *dep_type_id,
                    name@,
                ));
                if !dependency::has_name(old(store).dependencies@, *dep_type_id, name@) {
                    // the dependency was new, so no edge could lead to it
                    let i = choose|i: int|
                        0 <= i < old(store).dependency_modules@.len() && old(
                            store,
                        ).dependency_modules@[i] == found;
                    assert(dependency::has(
                        old(store).dependencies@,
                        old(store).dependency_modules@[i].dependency_id.0,
                        old(store).dependency_modules@[i].dependency_id.1@,
                    ));
                    let x = choose|x: int|
                        0 <= x < old(store).dependencies@.len() && (#[trigger] old(
                            store,
                        ).dependencies@[x]).id == found.dependency_id.0;
                    assert(old(store).dependencies@[x].id <= old(store).last_id);
                    assert(false);
                }
                assert forall|m2: i64, t2: i64, n2: Seq<char>|
                    #[trigger] has_name(
                        store.dependency_modules@,
                        store.dependencies@,
                        m2,
                        t2,
                        n2,
                    ) <==> has_name(
                        old(store).dependency_modules@,
                        old(store).dependencies@,
                        m2,
                        t2,
                        n2,
                    ) || (m2 == *module_id && t2 == *dep_type_id && n2 == name@) by {}
            }
            found
        },
        None => {
            let module = module::get_by_id(store, module_id).unwrap();
            let id = store.fresh_id();
            let row = Model {
                id,
                dependency_id: (dep.id, dep.name),
                module_id: (module.id, module.technical_name.clone()),
            };
            let r = row.duplicate();
            store.dependency_modules.push(row);
            proof {
                let rows = mid.dependency_modules@;
                let after = store.dependency_modules@;
                assert(after[after.len() - 1] == r);
                assert forall|i: int| 0 <= i < rows.len() implies after[i] == rows[i] by {}
                assert forall|e: Model| #[trigger] after.contains(e) <==> rows.contains(e) || e
                    == r by {
                    if after.contains(e) {
                        let i = choose|i: int| 0 <= i < after.len() && after[i] == e;
                        if i < rows.len() {
                            assert(rows[i] == e);
                        }
                    }
                    if rows.contains(e) {
                        let i = choose|i: int| 0 <= i < rows.len() && rows[i] == e;
                        assert(after[i] == e);
                    }
                }
                if has_name(
                    old(store).dependency_modules@,
                    old(store).dependencies@,
                    *module_id,
                    *dep_type_id,
                    name@,
                ) {
                    let e = choose|e: Model|
                        #[trigger] rows.contains(e) && e.module_id.0 == *module_id
                            && dependency::kind_of(old(store).dependencies@, e.dependency_id.0)
                            == *dep_type_id && e.dependency_id.1@ == name@;
                    let i = choose|i: int| 0 <= i < rows.len() && rows[i] == e;
                    assert(e.dependency_id.0 == dep.id);
                    assert(false);
                }
                assert forall|m2: i64, t2: i64, n2: Seq<char>|
                    #[trigger] has_name(after, store.dependencies@, m2, t2, n2) <==> has_name(
                        rows,
                        old(store).dependencies@,
                        m2,
                        t2,
                        n2,
                    ) || (m2 == *module_id && t2 == *dep_type_id && n2 == name@) by {
                    if has_name(after, store.dependencies@, m2, t2, n2) {
                        let e = choose|e: Model|
                            #[trigger] after.contains(e) && e.module_id.0 == m2
                                && dependency::kind_of(store.dependencies@, e.dependency_id.0)
                                == t2 && e.dependency_id.1@ == n2;
                        if e != r {
                            assert(rows.contains(e));
                        }
                    }
                    if has_name(rows, old(store).dependencies@, m2, t2, n2) {
                        let e = choose|e: Model|
                            #[trigger] rows.contains(e) && e.module_id.0 == m2
                                && dependency::kind_of(
                                old(store).dependencies@,
                                e.dependency_id.0,
                            ) == t2 && e.dependency_id.1@ == n2;
                        assert(after.contains(e));
                    }
                    if m2 == *module_id && t2 == *dep_type_id && n2 == name@ {
                        assert(after.contains(r));
                    }
                }
            }
            let version = odoo_version_u8_to_string(&module.version_odoo);
            let e = register_new_dependency_module(
                store,
                name,
                dependency_type::name_text(*dep_type_id),
                *module_id,
                module.technical_name.as_str(),
                module.name.as_str(),
                version.as_str(),
                now,
            );
            proof {
                lemma_said_after_push(old(store).system_events@, old(store).system_events@, e);
                assert(said(store.system_events@, old(store).system_events@) =~= one_each(
                    EventKind::NewDependency,
                    seq![name@],
                    dependency_type::name_of(*dep_type_id),
                    *module_id,
                ));
            }
            r
        },
    }
}

/// Takes the edge between the module `module_id` and the dependency
/// `dependency_id` away, and says how many rows went.
pub fn delete_by_module_id_dependecy_id(store: &mut Store, module_id: &i64, dependency_id: &i64) -> (r:
    usize)
    requires
        old(store).wf(),
    ensures
        final(store).wf(),
        r <= 1,
        forall|m: Model|
            final(store).dependency_modules@.contains(m) <==> old(
                store,
            ).dependency_modules@.contains(m) && !(m.module_id.0 == *module_id
                && m.dependency_id.0 == *dependency_id),
        old(store).dependency_modules@.len() == final(store).dependency_modules@.len() + r,
        r == 1 <==> has_edge(old(store).dependency_modules@, *dependency_id, *module_id),
        *final(store) == (Store {
            dependency_modules: final(store).dependency_modules,
            ..*old(store)
        }),
{
    let mut i: usize = 0;
    while i < store.dependency_modules.len()
        invariant
            i <= store.dependency_modules.len(),
            *store == *old(store),
            store.wf(),
            forall|k: int|
                0 <= k < i ==> !((#[trigger] store.dependency_modules@[k]).module_id.0 == *module_id
                    && store.dependency_modules@[k].dependency_id.0 == *dependency_id),
        decreases store.dependency_modules.len() - i,
    {
        if store.dependency_modules[i].module_id.0 == *module_id
            && store.dependency_modules[i].dependency_id.0 == *dependency_id {
            let ghost rows = store.dependency_modules@;
            proof {
                lemma_after_remove(rows, i as int, store.last_id, store.dependencies@);
            }
            let gone = store.dependency_modules.remove(i);
            proof {
                assert forall|m: Model|
                    store.dependency_modules@.contains(m) <==> rows.contains(m) && !(m.module_id.0
                        == *module_id && m.dependency_id.0 == *dependency_id) by {
                    if rows.contains(m) {
                        let k = choose|k: int| 0 <= k < rows.len() && rows[k] == m;
                        if m.module_id.0 == *module_id && m.dependency_id.0 == *dependency_id {
                            if k < i {
                                assert(!(rows[k].module_id.0 == rows[i as int].module_id.0
                                    && rows[k].dependency_id.0 == rows[i as int].dependency_id.0));
                            } else if i < k {
                                assert(!(rows[i as int].module_id.0 == rows[k].module_id.0
                                    && rows[i as int].dependency_id.0 == rows[k].dependency_id.0));
                            }
                            assert(m == rows[i as int]);
                        } else {
                            assert(k != i);
                        }
                    }
                }
            }
            return 1;
        }
        i += 1;
    }
    proof {
        assert forall|m: Model| store.dependency_modules@.contains(m) implies !(m.module_id.0
            == *module_id && m.dependency_id.0 == *dependency_id) by {
            let k = choose|k: int|
                0 <= k < store.dependency_modules@.len() && store.dependency_modules@[k] == m;
        }
    }
    0
}

/// Takes every edge of the module `module_id` away, and says how many rows
/// went.
pub fn delete_by_module_id(store: &mut Store, module_id: &i64) -> (r: usize)
    requires
        old(store).wf(),
    ensures
        final(store).wf(),
        forall|m: Model|
            final(store).dependency_modules@.contains(m) <==> old(
                store,
            ).dependency_modules@.contains(m) && m.module_id.0 != *module_id,
        old(store).dependency_modules@.len() == final(store).dependency_modules@.len() + r,
        *final(store) == (Store {
            dependency_modules: final(store).dependency_modules,
            ..*old(store)
        }),
{
    let mut i: usize = 0;
    let mut r: usize = 0;
    while i < store.dependency_modules.len()
        invariant
            i <= store.dependency_modules.len(),
            store.wf(),
            *store == (Store { dependency_modules: store.dependency_modules, ..*old(store) }),
            old(store).dependency_modules@.len() == store.dependency_modules@.len() + r,
            forall|k: int|
                0 <= k < i ==> (#[trigger] store.dependency_modules@[k]).module_id.0 != *module_id,
            forall|m: Model|
                store.dependency_modules@.contains(m) ==> old(store).dependency_modules@.contains(
                    m,
                ),
            forall|m: Model|
                old(store).dependency_modules@.contains(m) && m.module_id.0 != *module_id
                    ==> store.dependency_modules@.contains(m),
        decreases store.dependency_modules.len() - i,
    {
        if store.dependency_modules[i].module_id.0 == *module_id {
            let ghost rows = store.dependency_modules@;
            proof {
                lemma_after_remove(rows, i as int, store.last_id, store.dependencies@);
            }
            let gone = store.dependency_modules.remove(i);
            proof {
                assert(old(store).dependency_modules.len() <= usize::MAX);
                rows.remove_ensures(i as int);
                assert forall|m: Model|
                    old(store).dependency_modules@.contains(m) && m.module_id.0
                        != *module_id implies store.dependency_modules@.contains(m) by {
                    let k = choose|k: int| 0 <= k < rows.len() && rows[k] == m;
                    assert(k != i);
                }
            }
            r += 1;
        } else {
            i += 1;
        }
    }
    proof {
        assert forall|m: Model| store.dependency_modules@.contains(m) implies m.module_id.0
            != *module_id by {
            let k = choose|k: int|
                0 <= k < store.dependency_modules@.len() && store.dependency_modules@[k] == m;
        }
    }
    r
}

/// What is said where a module's dependencies of the kind `dep_type_id` are
/// brought in line with `wanted`, the module having had the dependencies
/// `had`: each name that is no longer wanted is reported as lost, in the
/// order of `had`, then each new name as gained, once, in the order of
/// `wanted`.
pub open spec fn said_by_sync(
    had: Seq<Seq<char>>,
    wanted: Seq<Seq<char>>,
    dep_type_id: i64,
    module_id: i64,
) -> Seq<Signature> {
    one_each(
        EventKind::DeletedDependency,
        minus(had, wanted),
        dependency_type::name_of(dep_type_id),
        module_id,
    ) + one_each(
        EventKind::NewDependency,
        first_seen(minus(wanted, had)),
        dependency_type::name_of(dep_type_id),
        module_id,
    )
}

/// Takes the edges between the module `module` and the dependencies of the
/// kind `dep_type_id` named in `names` away, and reports each.
fn unlink(
    store: &mut Store,
    module: &module::Model,
    dep_type_id: i64,
    names: &Vec<String>,
    now: &str,
)
    requires
        old(store).wf(),
        dependency_type::is_id(dep_type_id),
        forall|k: int|
            0 <= k < names@.len() ==> has_name(
                old(store).dependency_modules@,
                old(store).dependencies@,
                module.id,
                dep_type_id,
                #[trigger] texts(names@)[k],
            ),
    ensures
        final(store).wf(),
        forall|m2: i64, t2: i64, n: Seq<char>|
            #[trigger] has_name(
                final(store).dependency_modules@,
                final(store).dependencies@,
                m2,
                t2,
                n,
            ) <==> has_name(old(store).dependency_modules@, old(store).dependencies@, m2, t2, n)
                && !(m2 == module.id && t2 == dep_type_id && texts(names@).contains(n)),
        extends(final(store).system_events@, old(store).system_events@),
        dated(final(store).system_events@, old(store).system_events@, now@),
        said(final(store).system_events@, old(store).system_events@) == one_each(
            EventKind::DeletedDependency,
            texts(names@),
            dependency_type::name_of(dep_type_id),
            module.id,
        ),
        forall|e: Model|
            #[trigger] final(store).dependency_modules@.contains(e) <==> old(
                store,
            ).dependency_modules@.contains(e) && !(e.module_id.0 == module.id
                && dependency::kind_of(old(store).dependencies@, e.dependency_id.0) == dep_type_id
                && texts(names@).contains(e.dependency_id.1@)),
        names@.len() == 0 ==> *final(store) == *old(store),
        *final(store) == (Store {
            dependency_modules: final(store).dependency_modules,
            system_events: final(store).system_events,
            ..*old(store)
        }),
{
    let version = odoo_version_u8_to_string(&module.version_odoo);
    let ghost all = texts(names@);
    let ghost deps = store.dependencies@;
    let mut j: usize = 0;
    proof {
        lemma_said_nothing(store.system_events@);
        assert(all.take(0) =~= Seq::<Seq<char>>::empty());
        assert(said(store.system_events@, old(store).system_events@) =~= one_each(
            EventKind::DeletedDependency,
            all.take(0),
            dependency_type::name_of(dep_type_id),
            module.id,
        ));
    }
    while j < names.len()
        invariant
            j <= names.len(),
            all == texts(names@),
            deps == old(store).dependencies@,
            store.wf(),
            old(store).wf(),
            dependency_type::is_id(dep_type_id),
            forall|k: int|
                0 <= k < names@.len() ==> has_name(
                    old(store).dependency_modules@,
                    deps,
                    module.id,
                    dep_type_id,
                    #[trigger] all[k],
                ),
            forall|m2: i64, t2: i64, n: Seq<char>|
                #[trigger] has_name(store.dependency_modules@, deps, m2, t2, n) <==> has_name(
                    old(store).dependency_modules@,
                    deps,
                    m2,
                    t2,
                    n,
                ) && !(m2 == module.id && t2 == dep_type_id && all.take(j as int).contains(n)),
            extends(store.system_events@, old(store).system_events@),
            dated(store.system_events@, old(store).system_events@, now@),
            said(store.system_events@, old(store).system_events@) == one_each(
                EventKind::DeletedDependency,
                all.take(j as int),
                dependency_type::name_of(dep_type_id),
                module.id,
            ),
            forall|e: Model|
                #[trigger] store.dependency_modules@.contains(e) <==> old(
                    store,
                ).dependency_modules@.contains(e) && !(e.module_id.0 == module.id
                    && dependency::kind_of(deps, e.dependency_id.0) == dep_type_id && all.take(
                    j as int,
                ).contains(e.dependency_id.1@)),
            j == 0 ==> *store == *old(store),
            *store == (Store {
                dependency_modules: store.dependency_modules,
                system_events: store.system_events,
                ..*old(store)
            }),
        decreases names.len() - j,
    {
        let ghost before = *store;
        let ghost name = all[j as int];
        assert(name == names@[j as int]@);
        proof {
            // the dependency is in the catalog: the module was linked to it
            let e = choose|e: Model|
                #[trigger] old(store).dependency_modules@.contains(e) && e.module_id.0 == module.id
                    && dependency::kind_of(deps, e.dependency_id.0) == dep_type_id
                    && e.dependency_id.1@ == name;
            let i = choose|i: int|
                0 <= i < old(store).dependency_modules@.len() && old(
                    store,
                ).dependency_modules@[i] == e;
            assert(dependency::has(
                deps,
                old(store).dependency_modules@[i].dependency_id.0,
                e.dependency_id.1@,
            ));
            let x = choose|x: int|
                0 <= x < deps.len() && (#[trigger] deps[x]).id == e.dependency_id.0 && deps[x].name@
                    == e.dependency_id.1@;
            dependency::lemma_kind_of(deps, x);
            assert(dependency::has_name(deps, dep_type_id, name));
        }
        match dependency::get_by_name(store, &dep_type_id, names[j].as_str()) {
            Some(d) => {
                proof {
                    assert forall|e: Model| #[trigger]
                        store.dependency_modules@.contains(e) implies (e.dependency_id.0 == d.id
                        <==> e.dependency_id.1@ == name && dependency::kind_of(
                        deps,
                        e.dependency_id.0,
                    ) == dep_type_id) by {
                        lemma_edge_of(*store, e, d);
                    }
                }
                let gone = delete_by_module_id_dependecy_id(store, &module.id, &d.id);
                let e = register_delete_module_dependency(
                    store,
                    names[j].as_str(),
                    dependency_type::name_text(dep_type_id),
                    module.id,
                    module.technical_name.as_str(),
                    module.name.as_str(),
                    version.as_str(),
                    now,
                );
                proof {
                    lemma_said_after_push(old(store).system_events@, before.system_events@, e);
                    assert(said(store.system_events@, old(store).system_events@) =~= one_each(
                        EventKind::DeletedDependency,
                        all.take(j + 1),
                        dependency_type::name_of(dep_type_id),
                        module.id,
                    ));
                    assert forall|m2: i64, t2: i64, n: Seq<char>|
                        #[trigger] has_name(store.dependency_modules@, deps, m2, t2, n)
                            <==> has_name(old(store).dependency_modules@, deps, m2, t2, n) && !(m2
                            == module.id && t2 == dep_type_id && all.take(j + 1).contains(n)) by {
                        lemma_take_contains_step(all, j as int, n);
                        assert(has_name(before.dependency_modules@, deps, m2, t2, n) <==> has_name(
                            old(store).dependency_modules@,
                            deps,
                            m2,
                            t2,
                            n,
                        ) && !(m2 == module.id && t2 == dep_type_id && all.take(j as int).contains(
                            n,
                        )));
                        if has_name(before.dependency_modules@, deps, m2, t2, n) && !(m2
                            == module.id && t2 == dep_type_id && n == name) {
                            let w = choose|w: Model|
                                #[trigger] before.dependency_modules@.contains(w) && w.module_id.0
                                    == m2 && dependency::kind_of(deps, w.dependency_id.0) == t2
                                    && w.dependency_id.1@ == n;
                            assert(store.dependency_modules@.contains(w));
                        }
                    }
                    assert forall|e: Model|
                        #[trigger] store.dependency_modules@.contains(e) <==> old(
                            store,
                        ).dependency_modules@.contains(e) && !(e.module_id.0 == module.id
                            && dependency::kind_of(deps, e.dependency_id.0) == dep_type_id
                            && all.take(j + 1).contains(e.dependency_id.1@)) by {
                        lemma_take_contains_step(all, j as int, e.dependency_id.1@);
                        assert(before.dependency_modules@.contains(e) <==> old(
                            store,
                        ).dependency_modules@.contains(e) && !(e.module_id.0 == module.id
                            && dependency::kind_of(deps, e.dependency_id.0) == dep_type_id
                            && all.take(j as int).contains(e.dependency_id.1@)));
                    }
                }
            },
            None => {
                assert(false);
            },
        }
        j += 1;
    }
    proof {
        assert(all.take(names@.len() as int) =~= all);
    }
}

/// Links the module `module_id` to each dependency of the kind
/// `dep_type_id` named in `names`, reports each new edge, and hands the new
/// edges back.
fn link(store: &mut Store, module_id: &i64, dep_type_id: i64, names: &Vec<String>, now: &str) -> (added:
    Vec<Model>)
    requires
        old(store).wf(),
        old(store).last_id + 2 * names@.len() <= i64::MAX,
        dependency_type::is_id(dep_type_id),
        module::has_id(old(store).modules@, *module_id),
        forall|k: int|
            0 <= k < names@.len() ==> !has_name(
                old(store).dependency_modules@,
                old(store).dependencies@,
                *module_id,
                dep_type_id,
                #[trigger] texts(names@)[k],
            ),
    ensures
        final(store).wf(),
        forall|m2: i64, t2: i64, n: Seq<char>|
            #[trigger] has_name(
                final(store).dependency_modules@,
                final(store).dependencies@,
                m2,
                t2,
                n,
            ) <==> has_name(old(store).dependency_modules@, old(store).dependencies@, m2, t2, n)
                || (m2 == *module_id && t2 == dep_type_id && texts(names@).contains(n)),
        extends(final(store).system_events@, old(store).system_events@),
        dated(final(store).system_events@, old(store).system_events@, now@),
        said(final(store).system_events@, old(store).system_events@) == one_each(
            EventKind::NewDependency,
            first_seen(texts(names@)),
            dependency_type::name_of(dep_type_id),
            *module_id,
        ),
        edge_names(added@) == first_seen(texts(names@)),
        forall|k: int|
            0 <= k < added@.len() ==> (#[trigger] added@[k]).module_id.0 == *module_id
                && final(store).dependency_modules@.contains(added@[k]) && dependency::kind_of(
                final(store).dependencies@,
                added@[k].dependency_id.0,
            ) == dep_type_id,
        forall|e: Model| #[trigger]
            old(store).dependency_modules@.contains(e) ==> final(store).dependency_modules@.contains(
                e,
            ) && dependency::kind_of(final(store).dependencies@, e.dependency_id.0)
                == dependency::kind_of(old(store).dependencies@, e.dependency_id.0),
        names@.len() == 0 ==> *final(store) == *old(store),
        old(store).last_id <= final(store).last_id <= old(store).last_id + 2 * names@.len(),
        *final(store) == (Store {
            dependencies: final(store).dependencies,
            dependency_modules: final(store).dependency_modules,
            system_events: final(store).system_events,
            last_id: final(store).last_id,
            ..*old(store)
        }),
{
    let ghost all = texts(names@);
    let mut added: Vec<Model> = Vec::new();
    let mut j: usize = 0;
    proof {
        lemma_said_nothing(store.system_events@);
        assert(all.take(0) =~= Seq::<Seq<char>>::empty());
        assert(said(store.system_events@, old(store).system_events@) =~= one_each(
            EventKind::NewDependency,
            first_seen(all.take(0)),
            dependency_type::name_of(dep_type_id),
            *module_id,
        ));
        assert(edge_names(added@) =~= first_seen(all.take(0)));
    }
    while j < names.len()
        invariant
            j <= names.len(),
            all == texts(names@),
            store.wf(),
            old(store).last_id + 2 * names@.len() <= i64::MAX,
            old(store).last_id <= store.last_id <= old(store).last_id + 2 * j,
            dependency_type::is_id(dep_type_id),
            module::has_id(store.modules@, *module_id),
            forall|k: int|
                0 <= k < names@.len() ==> !has_name(
                    old(store).dependency_modules@,
                    old(store).dependencies@,
                    *module_id,
                    dep_type_id,
                    #[trigger] all[k],
                ),
            forall|m2: i64, t2: i64, n: Seq<char>|
                #[trigger] has_name(store.dependency_modules@, store.dependencies@, m2, t2, n)
                    <==> has_name(
                    old(store).dependency_modules@,
                    old(store).dependencies@,
                    m2,
                    t2,
                    n,
                ) || (m2 == *module_id && t2 == dep_type_id && all.take(j as int).contains(n)),
            extends(store.system_events@, old(store).system_events@),
            dated(store.system_events@, old(store).system_events@, now@),
            said(store.system_events@, old(store).system_events@) == one_each(
                EventKind::NewDependency,
                first_seen(all.take(j as int)),
                dependency_type::name_of(dep_type_id),
                *module_id,
            ),
            edge_names(added@) == first_seen(all.take(j as int)),
            forall|k: int|
                0 <= k < added@.len() ==> (#[trigger] added@[k]).module_id.0 == *module_id
                    && store.dependency_modules@.contains(added@[k]) && dependency::kind_of(
                    store.dependencies@,
                    added@[k].dependency_id.0,
                ) == dep_type_id,
            forall|e: Model| #[trigger]
                old(store).dependency_modules@.contains(e) ==> store.dependency_modules@.contains(e)
                    && dependency::kind_of(store.dependencies@, e.dependency_id.0)
                    == dependency::kind_of(old(store).dependencies@, e.dependency_id.0),
            j == 0 ==> *store == *old(store),
            *store == (Store {
                dependencies: store.dependencies,
                dependency_modules: store.dependency_modules,
                system_events: store.system_events,
                last_id: store.last_id,
                ..*old(store)
            }),
        decreases names.len() - j,
    {
        let ghost before = *store;
        let ghost name = all[j as int];
        let ghost added_before = added@;
        assert(name == names@[j as int]@);
        let count = store.dependency_modules.len();
        let r = self::add(store, &dep_type_id, names[j].as_str(), module_id, now);
        proof {
            lemma_first_seen_step(all, j as int);
            lemma_said_in_turn(
                old(store).system_events@,
                before.system_events@,
                store.system_events@,
            );
            assert(has_name(
                before.dependency_modules@,
                before.dependencies@,
                *module_id,
                dep_type_id,
                name,
            ) <==> all.take(j as int).contains(name));
            if has_name(
                before.dependency_modules@,
                before.dependencies@,
                *module_id,
                dep_type_id,
                name,
            ) {
                assert(said(store.system_events@, before.system_events@) =~= Seq::<
                    Signature,
                >::empty()) by {
                    lemma_said_nothing(before.system_events@);
                }
            }
            assert(said(store.system_events@, old(store).system_events@) =~= one_each(
                EventKind::NewDependency,
                first_seen(all.take(j + 1)),
                dependency_type::name_of(dep_type_id),
                *module_id,
            ));
            assert forall|m2: i64, t2: i64, n: Seq<char>|
                #[trigger] has_name(store.dependency_modules@, store.dependencies@, m2, t2, n)
                    <==> has_name(
                    old(store).dependency_modules@,
                    old(store).dependencies@,
                    m2,
                    t2,
                    n,
                ) || (m2 == *module_id && t2 == dep_type_id && all.take(j + 1).contains(n)) by {
                lemma_take_contains_step(all, j as int, n);
                assert(has_name(before.dependency_modules@, before.dependencies@, m2, t2, n)
                    <==> has_name(
                    old(store).dependency_modules@,
                    old(store).dependencies@,
                    m2,
                    t2,
                    n,
                ) || (m2 == *module_id && t2 == dep_type_id && all.take(j as int).contains(n)));
            }
        }
        if store.dependency_modules.len() > count {
            added.push(r);
            proof {
                assert(!has_name(
                    before.dependency_modules@,
                    before.dependencies@,
                    *module_id,
                    dep_type_id,
                    name,
                ));
                assert(edge_names(added@) =~= edge_names(added_before).push(name));
            }
        } else {
            proof {
                if !has_name(
                    before.dependency_modules@,
                    before.dependencies@,
                    *module_id,
                    dep_type_id,
                    name,
                ) {
                    assert(store.dependency_modules@.len() == before.dependency_modules@.len() + 1);
                }
            }
        }
        j += 1;
    }
    proof {
        assert(all.take(names@.len() as int) =~= all);
    }
    added
}

/// The names of the dependencies that the edges `edges` lead to.
pub open spec fn edge_names(edges: Seq<Model>) -> Seq<Seq<char>> {
    Seq::new(edges.len(), |i: int| edges[i].dependency_id.1@)
}

/// Takes the edges between the module `module_id` and the dependencies of
/// the kind `dep_type_id` named in `to_remove` away, adds an edge to each
/// one named in `to_add`, and reports each of them. The new edges are handed
/// back.
pub fn apply(
    store: &mut Store,
    module_id: &i64,
    dep_type_id: &i64,
    to_remove: &Vec<String>,
    to_add: &Vec<String>,
    now: &str,
) -> (added: Vec<Model>)
    requires
        old(store).wf(),
        old(store).last_id + 2 * to_add@.len() <= i64::MAX,
        dependency_type::is_id(*dep_type_id),
        module::has_id(old(store).modules@, *module_id),
        forall|k: int|
            0 <= k < to_remove@.len() ==> has_name(
                old(store).dependency_modules@,
                old(store).dependencies@,
                *module_id,
                *dep_type_id,
                #[trigger] texts(to_remove@)[k],
            ),
        forall|k: int|
            0 <= k < to_add@.len() ==> !has_name(
                old(store).dependency_modules@,
                old(store).dependencies@,
                *module_id,
                *dep_type_id,
                #[trigger] texts(to_add@)[k],
            ),
    ensures
        final(store).wf(),
        forall|m2: i64, t2: i64, n: Seq<char>|
            #[trigger] has_name(
                final(store).dependency_modules@,
                final(store).dependencies@,
                m2,
                t2,
                n,
            ) <==> if m2 == *module_id && t2 == *dep_type_id {
                (has_name(old(store).dependency_modules@, old(store).dependencies@, m2, t2, n)
                    && !texts(to_remove@).contains(n)) || texts(to_add@).contains(n)
            } else {
                has_name(old(store).dependency_modules@, old(store).dependencies@, m2, t2, n)
            },
        extends(final(store).system_events@, old(store).system_events@),
        dated(final(store).system_events@, old(store).system_events@, now@),
        said(final(store).system_events@, old(store).system_events@) == one_each(
            EventKind::DeletedDependency,
            texts(to_remove@),
            dependency_type::name_of(*dep_type_id),
            *module_id,
        ) + one_each(
            EventKind::NewDependency,
            first_seen(texts(to_add@)),
            dependency_type::name_of(*dep_type_id),
            *module_id,
        ),
        edge_names(added@) == first_seen(texts(to_add@)),
        forall|k: int|
            0 <= k < added@.len() ==> (#[trigger] added@[k]).module_id.0 == *module_id
                && final(store).dependency_modules@.contains(added@[k]) && dependency::kind_of(
                final(store).dependencies@,
                added@[k].dependency_id.0,
            ) == *dep_type_id,
        forall|e: Model| #[trigger]
            old(store).dependency_modules@.contains(e) && !(e.module_id.0 == *module_id
                && dependency::kind_of(old(store).dependencies@, e.dependency_id.0)
                == *dep_type_id) ==> final(store).dependency_modules@.contains(e)
                && dependency::kind_of(final(store).dependencies@, e.dependency_id.0)
                == dependency::kind_of(old(store).dependencies@, e.dependency_id.0),
        to_remove@.len() == 0 && to_add@.len() == 0 ==> *final(store) == *old(store),
        old(store).last_id <= final(store).last_id <= old(store).last_id + 2 * to_add@.len(),
        *final(store) == (Store {
            dependencies: final(store).dependencies,
            dependency_modules: final(store).dependency_modules,
            system_events: final(store).system_events,
            last_id: final(store).last_id,
            ..*old(store)
        }),
{
    let module = module::get_by_id(store, module_id).unwrap();
    unlink(store, &module, *dep_type_id, to_remove, now);
    let ghost mid = *store;
    proof {
        assert forall|k: int| 0 <= k < to_add@.len() implies !has_name(
            mid.dependency_modules@,
            mid.dependencies@,
            *module_id,
            *dep_type_id,
            #[trigger] texts(to_add@)[k],
        ) by {}
    }
    let added = link(store, module_id, *dep_type_id, to_add, now);
    proof {
        lemma_said_in_turn(old(store).system_events@, mid.system_events@, store.system_events@);
        assert forall|e: Model| #[trigger]
            old(store).dependency_modules@.contains(e) && !(e.module_id.0 == *module_id
                && dependency::kind_of(old(store).dependencies@, e.dependency_id.0)
                == *dep_type_id) implies store.dependency_modules@.contains(e)
            && dependency::kind_of(store.dependencies@, e.dependency_id.0) == dependency::kind_of(
            old(store).dependencies@,
            e.dependency_id.0,
        ) by {
            assert(mid.dependency_modules@.contains(e));
        }
        assert forall|m2: i64, t2: i64, n: Seq<char>|
            #[trigger] has_name(store.dependency_modules@, store.dependencies@, m2, t2, n)
                <==> if m2 == *module_id && t2 == *dep_type_id {
                (has_name(old(store).dependency_modules@, old(store).dependencies@, m2, t2, n)
                    && !texts(to_remove@).contains(n)) || texts(to_add@).contains(n)
            } else {
                has_name(old(store).dependency_modules@, old(store).dependencies@, m2, t2, n)
            } by {
            assert(has_name(store.dependency_modules@, store.dependencies@, m2, t2, n)
                <==> has_name(mid.dependency_modules@, mid.dependencies@, m2, t2, n) || (m2
                == *module_id && t2 == *dep_type_id && texts(to_add@).contains(n)));
            assert(has_name(mid.dependency_modules@, mid.dependencies@, m2, t2, n) <==> has_name(
                old(store).dependency_modules@,
                old(store).dependencies@,
                m2,
                t2,
                n,
            ) && !(m2 == module.id && t2 == *dep_type_id && texts(to_remove@).contains(n)));
        }
    }
    added
}

/// What has to go and what has to come for the dependencies of the kind
/// `dep_type_id` of the module `module_id` to be those of `names`: first the
/// names that the module has and `names` lacks, then the names of `names`
/// that the module lacks.
pub fn plan(store: &Store, module_id: &i64, dep_type_id: &i64, names: &Vec<String>) -> (r: (
    Vec<String>,
    Vec<String>,
))
    requires
        store.wf(),
    ensures
        texts(r.0@) == minus(
            names_of_module(
                store.dependency_modules@,
                store.dependencies@,
                *module_id,
                *dep_type_id,
            ),
            texts(names@),
        ),
        texts(r.1@) == minus(
            texts(names@),
            names_of_module(
                store.dependency_modules@,
                store.dependencies@,
                *module_id,
                *dep_type_id,
            ),
        ),
{
    let stored = get_names(store, module_id, dep_type_id);
    (difference(&stored, names), difference(names, &stored))
}

/// What a plan holds: each name to go is a dependency of the module, no name
/// to come is one, and with the plan carried out the module's dependencies
/// are those that were wanted.
pub proof fn lemma_plan(
    store: Store,
    module_id: i64,
    dep_type_id: i64,
    wanted: Seq<Seq<char>>,
    n: Seq<char>,
)
    ensures
        ({
            let had = names_of_module(
                store.dependency_modules@,
                store.dependencies@,
                module_id,
                dep_type_id,
            );
            let linked = has_name(
                store.dependency_modules@,
                store.dependencies@,
                module_id,
                dep_type_id,
                n,
            );
            &&& minus(had, wanted).contains(n) ==> linked
            &&& minus(wanted, had).contains(n) ==> !linked
            &&& ((linked && !minus(had, wanted).contains(n)) || minus(wanted, had).contains(n))
                <==> wanted.contains(n)
            &&& minus(wanted, had).len() <= wanted.len()
        }),
{
    let had = names_of_module(
        store.dependency_modules@,
        store.dependencies@,
        module_id,
        dep_type_id,
    );
    lemma_names_of_module(store.dependency_modules@, store.dependencies@, module_id, dep_type_id, n);
    lemma_minus_contains(had, wanted, n);
    lemma_minus_contains(wanted, had, n);
    lemma_minus_len(wanted, had);
}

/// Brings the dependencies of the kind `dep_type_id` of the module
/// `module_id` in line with `names`: takes away each edge to a name that
/// `names` does not hold, adds an edge to each name that the module lacked,
/// and reports each of them. The new edges are handed back.
pub fn sync(
    store: &mut Store,
    module_id: &i64,
    dep_type_id: &i64,
    names: &Vec<String>,
    now: &str,
) -> (added: Vec<Model>)
    requires
        old(store).wf(),
        old(store).last_id + 2 * names@.len() <= i64::MAX,
        dependency_type::is_id(*dep_type_id),
        module::has_id(old(store).modules@, *module_id),
    ensures
        final(store).wf(),
        forall|m2: i64, t2: i64, n: Seq<char>|
            #[trigger] has_name(
                final(store).dependency_modules@,
                final(store).dependencies@,
                m2,
                t2,
                n,
            ) <==> if m2 == *module_id && t2 == *dep_type_id {
                texts(names@).contains(n)
            } else {
                has_name(old(store).dependency_modules@, old(store).dependencies@, m2, t2, n)
            },
        extends(final(store).system_events@, old(store).system_events@),
        dated(final(store).system_events@, old(store).system_events@, now@),
        said(final(store).system_events@, old(store).system_events@) == said_by_sync(
            names_of_module(
                old(store).dependency_modules@,
                old(store).dependencies@,
                *module_id,
                *dep_type_id,
            ),
            texts(names@),
            *dep_type_id,
            *module_id,
        ),
        edge_names(added@) == first_seen(
            minus(
                texts(names@),
                names_of_module(
                    old(store).dependency_modules@,
                    old(store).dependencies@,
                    *module_id,
                    *dep_type_id,
                ),
            ),
        ),
        forall|k: int|
            0 <= k < added@.len() ==> (#[trigger] added@[k]).module_id.0 == *module_id
                && final(store).dependency_modules@.contains(added@[k]),
        said_by_sync(
            names_of_module(
                old(store).dependency_modules@,
                old(store).dependencies@,
                *module_id,
                *dep_type_id,
            ),
            texts(names@),
            *dep_type_id,
            *module_id,
        ).len() == 0 ==> *final(store) == *old(store),
        old(store).last_id <= final(store).last_id <= old(store).last_id + 2 * names@.len(),
        *final(store) == (Store {
            dependencies: final(store).dependencies,
            dependency_modules: final(store).dependency_modules,
            system_events: final(store).system_events,
            last_id: final(store).last_id,
            ..*old(store)
        }),
{
    let (to_remove, to_add) = plan(store, module_id, dep_type_id, names);
    let ghost had = names_of_module(
        store.dependency_modules@,
        store.dependencies@,
        *module_id,
        *dep_type_id,
    );
    let ghost wanted = texts(names@);
    proof {
        assert forall|k: int| 0 <= k < to_remove@.len() implies has_name(
            old(store).dependency_modules@,
            old(store).dependencies@,
            *module_id,
            *dep_type_id,
            #[trigger] texts(to_remove@)[k],
        ) by {
            lemma_plan(*old(store), *module_id, *dep_type_id, wanted, texts(to_remove@)[k]);
        }
        assert forall|k: int| 0 <= k < to_add@.len() implies !has_name(
            old(store).dependency_modules@,
            old(store).dependencies@,
            *module_id,
            *dep_type_id,
            #[trigger] texts(to_add@)[k],
        ) by {
            lemma_plan(*old(store), *module_id, *dep_type_id, wanted, texts(to_add@)[k]);
        }
        lemma_minus_len(wanted, had);
    }
    let added = apply(store, module_id, dep_type_id, &to_remove, &to_add, now);
    proof {
        assert forall|m2: i64, t2: i64, n: Seq<char>|
            #[trigger] has_name(store.dependency_modules@, store.dependencies@, m2, t2, n)
                <==> if m2 == *module_id && t2 == *dep_type_id {
                wanted.contains(n)
            } else {
                has_name(old(store).dependency_modules@, old(store).dependencies@, m2, t2, n)
            } by {
            lemma_plan(*old(store), *module_id, *dep_type_id, wanted, n);
        }
        if said_by_sync(had, wanted, *dep_type_id, *module_id).len() == 0 {
            assert(minus(had, wanted).len() == 0);
            if minus(wanted, had).len() > 0 {
                lemma_first_seen_contains(minus(wanted, had), minus(wanted, had)[0]);
            }
        }
    }
    added
}

/// No name occurs twice among the dependencies of one kind of one module.
pub proof fn lemma_names_distinct(
    rows: Seq<Model>,
    dependencies: Seq<dependency::Model>,
    module_id: i64,
    dep_type_id: i64,
)
    requires
        well_keyed(rows),
        linked(rows, dependencies),
        dependency::well_keyed(dependencies),
    ensures
        distinct(names_of_module(rows, dependencies, module_id, dep_type_id)),
    decreases rows.len(),
{
    if rows.len() > 0 {
        let init = rows.drop_last();
        let last = rows.last();
        assert forall|i: int| 0 <= i < init.len() implies init[i] == rows[i] by {}
        assert(well_keyed(init)) by {
            assert forall|i: int, j: int| 0 <= i < j < init.len() implies (#[trigger] init[i]).id
                != (#[trigger] init[j]).id && !(init[i].module_id.0 == init[j].module_id.0
                && init[i].dependency_id.0 == init[j].dependency_id.0) by {
                assert(init[i] == rows[i] && init[j] == rows[j]);
            }
        }
        assert(linked(init, dependencies)) by {
            assert forall|i: int| 0 <= i < init.len() implies dependency::has(
                dependencies,
                (#[trigger] init[i]).dependency_id.0,
                init[i].dependency_id.1@,
            ) by {
                assert(init[i] == rows[i]);
            }
        }
        lemma_names_distinct(init, dependencies, module_id, dep_type_id);
        let before = names_of_module(init, dependencies, module_id, dep_type_id);
        if last.module_id.0 == module_id && dependency::kind_of(
            dependencies,
            last.dependency_id.0,
        ) == dep_type_id {
            let name = last.dependency_id.1@;
            if before.contains(name) {
                lemma_names_of_module(init, dependencies, module_id, dep_type_id, name);
                let e = choose|e: Model|
                    #[trigger] init.contains(e) && e.module_id.0 == module_id
                        && dependency::kind_of(dependencies, e.dependency_id.0) == dep_type_id
                        && e.dependency_id.1@ == name;
                let k = choose|k: int| 0 <= k < init.len() && init[k] == e;
                assert(rows[k] == e);
                assert(rows[rows.len() - 1] == last);
                assert(dependency::has(dependencies, rows[k].dependency_id.0, name));
                assert(dependency::has(
                    dependencies,
                    rows[rows.len() - 1].dependency_id.0,
                    name,
                ));
                let x = choose|x: int|
                    0 <= x < dependencies.len() && (#[trigger] dependencies[x]).id
                        == e.dependency_id.0 && dependencies[x].name@ == name;
                let y = choose|y: int|
                    0 <= y < dependencies.len() && (#[trigger] dependencies[y]).id
                        == last.dependency_id.0 && dependencies[y].name@ == name;
                dependency::lemma_kind_of(dependencies, x);
                dependency::lemma_kind_of(dependencies, y);
                if x < y {
                    assert(!(dependencies[x].name@ == dependencies[y].name@
                        && dependencies[x].dependency_type_id.0
                        == dependencies[y].dependency_type_id.0));
                } else if y < x {
                    assert(!(dependencies[y].name@ == dependencies[x].name@
                        && dependencies[y].dependency_type_id.0
                        == dependencies[x].dependency_type_id.0));
                }
                assert(!(rows[k].module_id.0 == rows[rows.len() - 1].module_id.0
                    && rows[k].dependency_id.0 == rows[rows.len() - 1].dependency_id.0));
            }
            let after = before.push(name);
            assert forall|i: int, j: int| 0 <= i < j < after.len() implies after[i]
                != after[j] by {
                if j == before.len() {
                    assert(before[i] == after[i]);
                }
            }
        }
    }
}

/// Set-diff correctness, counted. Where the dependencies of one kind of a
/// module are brought in line with `wanted`, as many losses are reported as
/// the module had dependencies that are not wanted, and as many gains as
/// there are wanted ones that it did not have. (That the module then has the
/// wanted ones and no others is what `sync` ensures.)
pub proof fn sync_reports_the_difference(
    store: Store,
    module_id: i64,
    dep_type_id: i64,
    wanted: Seq<Seq<char>>,
)
    requires
        store.wf(),
    ensures
        ({
            let had = names_of_module(
                store.dependency_modules@,
                store.dependencies@,
                module_id,
                dep_type_id,
            );
            let said = said_by_sync(had, wanted, dep_type_id, module_id);
            &&& count_of(said, EventKind::DeletedDependency) == had.to_set().difference(
                wanted.to_set(),
            ).len()
            &&& count_of(said, EventKind::NewDependency) == wanted.to_set().difference(
                had.to_set(),
            ).len()
            &&& said.len() == count_of(said, EventKind::DeletedDependency) + count_of(
                said,
                EventKind::NewDependency,
            )
        }),
{
    let had = names_of_module(
        store.dependency_modules@,
        store.dependencies@,
        module_id,
        dep_type_id,
    );
    lemma_names_distinct(store.dependency_modules@, store.dependencies@, module_id, dep_type_id);
    lemma_difference_counts(had, wanted);
    let lost = one_each(
        EventKind::DeletedDependency,
        minus(had, wanted),
        dependency_type::name_of(dep_type_id),
        module_id,
    );
    let gained = one_each(
        EventKind::NewDependency,
        first_seen(minus(wanted, had)),
        dependency_type::name_of(dep_type_id),
        module_id,
    );
    lemma_count_of_both(lost, gained, EventKind::DeletedDependency);
    lemma_count_of_both(lost, gained, EventKind::NewDependency);
    lemma_count_of_one_each(
        EventKind::DeletedDependency,
        minus(had, wanted),
        dependency_type::name_of(dep_type_id),
        module_id,
        EventKind::DeletedDependency,
    );
    lemma_count_of_one_each(
        EventKind::DeletedDependency,
        minus(had, wanted),
        dependency_type::name_of(dep_type_id),
        module_id,
        EventKind::NewDependency,
    );
    lemma_count_of_one_each(
        EventKind::NewDependency,
        first_seen(minus(wanted, had)),
        dependency_type::name_of(dep_type_id),
        module_id,
        EventKind::DeletedDependency,
    );
    lemma_count_of_one_each(
        EventKind::NewDependency,
        first_seen(minus(wanted, had)),
        dependency_type::name_of(dep_type_id),
        module_id,
        EventKind::NewDependency,
    );
}

} // verus!
