//! The reconciler: takes one scraped module into the catalog, with its
//! people and its three kinds of dependencies, and reports what changed.

use crate::models::dependency_module;
use crate::models::dependency_type;
use crate::models::gh_repository;
use crate::models::module;
use crate::models::module::ManifestInfo;
use crate::models::store::{Store, StoreError};
use crate::models::system_event::{dated, extends, lemma_said_in_turn, lemma_said_nothing, said, Signature};
use crate::names::{first_seen, lemma_minus_of_subset, minus, same_names, same_set};
use crate::text::texts;
use vstd::prelude::*;

verus! {

/// What a reconciliation hands back: the module as the catalog now holds it,
/// and the edges to interpreter packages that the module did not have
/// before.
#[derive(Debug)]
pub struct Reconciled {
    pub module: module::Model,
    pub new_python_edges: Vec<dependency_module::Model>,
}

/// How many identities a reconciliation may draw: those for the module and
/// its people, and two for each dependency.
pub open spec fn ids_needed(descriptor: ManifestInfo) -> nat {
    module::ids_needed(descriptor) + 2 * (descriptor.depends@.len()
        + descriptor.external_depends_python@.len() + descriptor.external_depends_bin@.len())
}

/// The names of the dependencies of the kind `dep_type_id` that the
/// descriptor lists.
pub open spec fn wanted(descriptor: ManifestInfo, dep_type_id: i64) -> Seq<Seq<char>> {
    if dep_type_id == dependency_type::MODULE {
        texts(descriptor.depends@)
    } else if dep_type_id == dependency_type::PYTHON {
        texts(descriptor.external_depends_python@)
    } else {
        texts(descriptor.external_depends_bin@)
    }
}

/// The names of the dependencies of the kind `dep_type_id` that the catalog
/// holds for the module `module_id`.
pub open spec fn had(store: Store, module_id: i64, dep_type_id: i64) -> Seq<Seq<char>> {
    dependency_module::names_of_module(
        store.dependency_modules@,
        store.dependencies@,
        module_id,
        dep_type_id,
    )
}

/// Whether the dependencies of the module `module_id` are those of the
/// descriptor, kind by kind.
pub open spec fn dependencies_match(store: Store, descriptor: ManifestInfo, module_id: i64) -> bool {
    forall|t: i64, n: Seq<char>|
        dependency_type::is_id(t) ==> (#[trigger] dependency_module::has_name(
            store.dependency_modules@,
            store.dependencies@,
            module_id,
            t,
            n,
        ) <==> wanted(descriptor, t).contains(n))
}

/// Whether the dependencies of every module but `module_id` are in `after`
/// what they were in `before`.
pub open spec fn others_keep_dependencies(before: Store, after: Store, module_id: i64) -> bool {
    forall|m2: i64, t: i64, n: Seq<char>|
        m2 != module_id ==> (#[trigger] dependency_module::has_name(
            after.dependency_modules@,
            after.dependencies@,
            m2,
            t,
            n,
        ) <==> dependency_module::has_name(
            before.dependency_modules@,
            before.dependencies@,
            m2,
            t,
            n,
        ))
}

/// Whether the catalog holds the module of the descriptor with the fields,
/// the people and the dependencies that the descriptor gives.
pub open spec fn in_sync(store: Store, descriptor: ManifestInfo) -> bool {
    exists|m: module::Model|
        module::synced(store, descriptor, m) && dependencies_match(store, descriptor, m.id)
}

/// What is said of the dependencies of the module `module_id` where they are
/// brought in line with the descriptor: peer modules first, then interpreter
/// packages, then binary tools.
pub open spec fn said_of_dependencies(
    store: Store,
    descriptor: ManifestInfo,
    module_id: i64,
) -> Seq<Signature> {
    dependency_module::said_by_sync(
        had(store, module_id, dependency_type::MODULE),
        wanted(descriptor, dependency_type::MODULE),
        dependency_type::MODULE,
        module_id,
    ) + dependency_module::said_by_sync(
        had(store, module_id, dependency_type::PYTHON),
        wanted(descriptor, dependency_type::PYTHON),
        dependency_type::PYTHON,
        module_id,
    ) + dependency_module::said_by_sync(
        had(store, module_id, dependency_type::BIN),
        wanted(descriptor, dependency_type::BIN),
        dependency_type::BIN,
        module_id,
    )
}

/// Brings the three kinds of dependencies of the module `module_id` in line
/// with the descriptor, and hands the new edges to interpreter packages
/// back.
pub fn sync_dependencies(
    store: &mut Store,
    descriptor: &ManifestInfo,
    module_id: i64,
    now: &str,
) -> (added: Vec<dependency_module::Model>)
    requires
        old(store).wf(),
        old(store).last_id + 2 * (descriptor.depends@.len()
            + descriptor.external_depends_python@.len() + descriptor.external_depends_bin@.len())
            <= i64::MAX,
        module::has_id(old(store).modules@, module_id),
    ensures
        final(store).wf(),
        dependencies_match(*final(store), *descriptor, module_id),
        others_keep_dependencies(*old(store), *final(store), module_id),
        extends(final(store).system_events@, old(store).system_events@),
        dated(final(store).system_events@, old(store).system_events@, now@),
        said(final(store).system_events@, old(store).system_events@) == said_of_dependencies(
            *old(store),
            *descriptor,
            module_id,
        ),
        dependency_module::edge_names(added@) == first_seen(
            minus(
                wanted(*descriptor, dependency_type::PYTHON),
                had(*old(store), module_id, dependency_type::PYTHON),
            ),
        ),
        forall|k: int|
            0 <= k < added@.len() ==> (#[trigger] added@[k]).module_id.0 == module_id
                && final(store).dependency_modules@.contains(added@[k]),
        dependencies_match(*old(store), *descriptor, module_id) ==> *final(store) == *old(store),
        old(store).last_id <= final(store).last_id <= old(store).last_id + 2 * (
        descriptor.depends@.len() + descriptor.external_depends_python@.len()
            + descriptor.external_depends_bin@.len()),
        *final(store) == (Store {
            dependencies: final(store).dependencies,
            dependency_modules: final(store).dependency_modules,
            system_events: final(store).system_events,
            last_id: final(store).last_id,
            ..*old(store)
        }),
{
    let ghost s0 = *store;
    let peers = dependency_module::plan(
        store,
        &module_id,
        &dependency_type::MODULE,
        &descriptor.depends,
    );
    let packages = dependency_module::plan(
        store,
        &module_id,
        &dependency_type::PYTHON,
        &descriptor.external_depends_python,
    );
    let tools = dependency_module::plan(
        store,
        &module_id,
        &dependency_type::BIN,
        &descriptor.external_depends_bin,
    );
    proof {
        lemma_fits(s0, *descriptor, module_id, dependency_type::MODULE);
        lemma_fits(s0, *descriptor, module_id, dependency_type::PYTHON);
        lemma_fits(s0, *descriptor, module_id, dependency_type::BIN);
        assert forall|k: int| 0 <= k < peers.0@.len() implies dependency_module::has_name(
            s0.dependency_modules@,
            s0.dependencies@,
            module_id,
            dependency_type::MODULE,
            #[trigger] texts(peers.0@)[k],
        ) by {
            assert(texts(peers.0@).contains(texts(peers.0@)[k]));
            dependency_module::lemma_plan(
                s0,
                module_id,
                dependency_type::MODULE,
                wanted(*descriptor, dependency_type::MODULE),
                texts(peers.0@)[k],
            );
        }
        assert forall|k: int| 0 <= k < peers.1@.len() implies !dependency_module::has_name(
            s0.dependency_modules@,
            s0.dependencies@,
            module_id,
            dependency_type::MODULE,
            #[trigger] texts(peers.1@)[k],
        ) by {
            assert(texts(peers.1@).contains(texts(peers.1@)[k]));
            dependency_module::lemma_plan(
                s0,
                module_id,
                dependency_type::MODULE,
                wanted(*descriptor, dependency_type::MODULE),
                texts(peers.1@)[k],
            );
        }
    }
    let _ = dependency_module::apply(
        store,
        &module_id,
        &dependency_type::MODULE,
        &peers.0,
        &peers.1,
        now,
    );
    let ghost s1 = *store;
    proof {
        assert forall|k: int| 0 <= k < packages.0@.len() implies dependency_module::has_name(
            s1.dependency_modules@,
            s1.dependencies@,
            module_id,
            dependency_type::PYTHON,
            #[trigger] texts(packages.0@)[k],
        ) by {
            assert(texts(packages.0@).contains(texts(packages.0@)[k]));
            dependency_module::lemma_plan(
                s0,
                module_id,
                dependency_type::PYTHON,
                wanted(*descriptor, dependency_type::PYTHON),
                texts(packages.0@)[k],
            );
        }
        assert forall|k: int| 0 <= k < packages.1@.len() implies !dependency_module::has_name(
            s1.dependency_modules@,
            s1.dependencies@,
            module_id,
            dependency_type::PYTHON,
            #[trigger] texts(packages.1@)[k],
        ) by {
            assert(texts(packages.1@).contains(texts(packages.1@)[k]));
            dependency_module::lemma_plan(
                s0,
                module_id,
                dependency_type::PYTHON,
                wanted(*descriptor, dependency_type::PYTHON),
                texts(packages.1@)[k],
            );
        }
    }
    let added = dependency_module::apply(
        store,
        &module_id,
        &dependency_type::PYTHON,
        &packages.0,
        &packages.1,
        now,
    );
    let ghost s2 = *store;
    proof {
        assert forall|k: int| 0 <= k < tools.0@.len() implies dependency_module::has_name(
            s2.dependency_modules@,
            s2.dependencies@,
            module_id,
            dependency_type::BIN,
            #[trigger] texts(tools.0@)[k],
        ) by {
            assert(texts(tools.0@).contains(texts(tools.0@)[k]));
            dependency_module::lemma_plan(
                s0,
                module_id,
                dependency_type::BIN,
                wanted(*descriptor, dependency_type::BIN),
                texts(tools.0@)[k],
            );
        }
        assert forall|k: int| 0 <= k < tools.1@.len() implies !dependency_module::has_name(
            s2.dependency_modules@,
            s2.dependencies@,
            module_id,
            dependency_type::BIN,
            #[trigger] texts(tools.1@)[k],
        ) by {
            assert(texts(tools.1@).contains(texts(tools.1@)[k]));
            dependency_module::lemma_plan(
                s0,
                module_id,
                dependency_type::BIN,
                wanted(*descriptor, dependency_type::BIN),
                texts(tools.1@)[k],
            );
        }
    }
    let _ = dependency_module::apply(
        store,
        &module_id,
        &dependency_type::BIN,
        &tools.0,
        &tools.1,
        now,
    );
    proof {
        lemma_said_in_turn(s0.system_events@, s1.system_events@, s2.system_events@);
        lemma_said_in_turn(s0.system_events@, s2.system_events@, store.system_events@);
        assert(said(store.system_events@, s0.system_events@) =~= said_of_dependencies(
            s0,
            *descriptor,
            module_id,
        ));
        assert forall|t: i64, n: Seq<char>| dependency_type::is_id(t) implies (
        #[trigger] dependency_module::has_name(
            store.dependency_modules@,
            store.dependencies@,
            module_id,
            t,
            n,
        ) <==> wanted(*descriptor, t).contains(n)) by {
            dependency_module::lemma_plan(s0, module_id, t, wanted(*descriptor, t), n);
        }
        if dependencies_match(s0, *descriptor, module_id) {
            lemma_nothing_to_do(s0, *descriptor, module_id, dependency_type::MODULE);
            lemma_nothing_to_do(s0, *descriptor, module_id, dependency_type::PYTHON);
            lemma_nothing_to_do(s0, *descriptor, module_id, dependency_type::BIN);
        }
    }
    added
}

/// No more names have to come than the descriptor lists.
proof fn lemma_fits(store: Store, descriptor: ManifestInfo, module_id: i64, t: i64)
    ensures
        minus(wanted(descriptor, t), had(store, module_id, t)).len() <= wanted(descriptor, t).len(),
{
    crate::names::lemma_minus_len(wanted(descriptor, t), had(store, module_id, t));
}

/// Where the dependencies of a module are those of the descriptor, nothing
/// has to go and nothing has to come.
pub proof fn lemma_nothing_to_do(store: Store, descriptor: ManifestInfo, module_id: i64, t: i64)
    requires
        dependencies_match(store, descriptor, module_id),
        dependency_type::is_id(t),
    ensures
        minus(had(store, module_id, t), wanted(descriptor, t)).len() == 0,
        minus(wanted(descriptor, t), had(store, module_id, t)).len() == 0,
{
    let a = had(store, module_id, t);
    let b = wanted(descriptor, t);
    assert forall|i: int| 0 <= i < a.len() implies b.contains(#[trigger] a[i]) by {
        dependency_module::lemma_names_of_module(
            store.dependency_modules@,
            store.dependencies@,
            module_id,
            t,
            a[i],
        );
    }
    assert forall|i: int| 0 <= i < b.len() implies a.contains(#[trigger] b[i]) by {
        dependency_module::lemma_names_of_module(
            store.dependency_modules@,
            store.dependencies@,
            module_id,
            t,
            b[i],
        );
    }
    lemma_minus_of_subset(a, b);
    lemma_minus_of_subset(b, a);
}

/// Whether `after` is what a reconciliation of the descriptor makes of
/// `before`: a catalog in line with the descriptor, and `before` itself
/// where that was in line already.
pub open spec fn reconciled(before: Store, descriptor: ManifestInfo, after: Store) -> bool {
    &&& in_sync(after, descriptor)
    &&& extends(after.system_events@, before.system_events@)
    &&& in_sync(before, descriptor) ==> after == before
}

/// Idempotence. Where a descriptor is reconciled and then reconciled again,
/// the second reconciliation leaves the catalog as the first one left it: it
/// reports no changed field and no name gained or lost, and nothing else.
pub proof fn reconcile_again(
    before: Store,
    descriptor: ManifestInfo,
    once: Store,
    twice: Store,
)
    requires
        reconciled(before, descriptor, once),
        reconciled(once, descriptor, twice),
    ensures
        twice == once,
        said(twice.system_events@, once.system_events@) == Seq::<Signature>::empty(),
{
    lemma_said_nothing(once.system_events@);
}

/// Uniqueness. A well-formed catalog holds one row at most for a technical
/// name in one bucket of one repository; and every function that changes the
/// catalog hands a well-formed catalog back.
pub proof fn one_row_per_module(store: Store, a: module::Model, b: module::Model)
    requires
        store.wf(),
        store.modules@.contains(a),
        store.modules@.contains(b),
        a.technical_name@ == b.technical_name@,
        a.version_odoo == b.version_odoo,
        a.gh_repository_id.0 == b.gh_repository_id.0,
    ensures
        a == b,
{
    let rows = store.modules@;
    let i = choose|i: int| 0 <= i < rows.len() && rows[i] == a;
    let j = choose|j: int| 0 <= j < rows.len() && rows[j] == b;
    if i < j {
        assert(!rows[i].is_keyed(
            rows[j].technical_name@,
            rows[j].version_odoo,
            rows[j].gh_repository_id.0,
        ));
    } else if j < i {
        assert(!rows[j].is_keyed(
            rows[i].technical_name@,
            rows[i].version_odoo,
            rows[i].gh_repository_id.0,
        ));
    }
}

/// Whether the dependencies of the module `module_id` are those of the
/// descriptor, kind by kind.
pub fn dependencies_are_in_line(store: &Store, descriptor: &ManifestInfo, module_id: i64) -> (r:
    bool)
    requires
        store.wf(),
    ensures
        r == dependencies_match(*store, *descriptor, module_id),
{
    let peers = dependency_module::get_names(store, &module_id, &dependency_type::MODULE);
    let packages = dependency_module::get_names(store, &module_id, &dependency_type::PYTHON);
    let tools = dependency_module::get_names(store, &module_id, &dependency_type::BIN);
    proof {
        assert forall|t: i64, n: Seq<char>|
            dependency_type::is_id(t) implies (#[trigger] dependency_module::has_name(
            store.dependency_modules@,
            store.dependencies@,
            module_id,
            t,
            n,
        ) <==> had(*store, module_id, t).contains(n)) by {
            dependency_module::lemma_names_of_module(
                store.dependency_modules@,
                store.dependencies@,
                module_id,
                t,
                n,
            );
        }
    }
    let a = same_names(&peers, &descriptor.depends);
    let b = same_names(&packages, &descriptor.external_depends_python);
    let c = same_names(&tools, &descriptor.external_depends_bin);
    proof {
        assert(a == same_set(
            had(*store, module_id, dependency_type::MODULE),
            wanted(*descriptor, dependency_type::MODULE),
        ));
        assert(b == same_set(
            had(*store, module_id, dependency_type::PYTHON),
            wanted(*descriptor, dependency_type::PYTHON),
        ));
        assert(c == same_set(
            had(*store, module_id, dependency_type::BIN),
            wanted(*descriptor, dependency_type::BIN),
        ));
        if a && b && c {
            assert(dependencies_match(*store, *descriptor, module_id));
        }
        if dependencies_match(*store, *descriptor, module_id) {
            assert(dependency_type::is_id(dependency_type::MODULE));
            assert(dependency_type::is_id(dependency_type::PYTHON));
            assert(dependency_type::is_id(dependency_type::BIN));
            assert forall|n: Seq<char>|
                had(*store, module_id, dependency_type::MODULE).contains(n) <==> wanted(
                    *descriptor,
                    dependency_type::MODULE,
                ).contains(n) by {
                assert(dependency_module::has_name(
                    store.dependency_modules@,
                    store.dependencies@,
                    module_id,
                    dependency_type::MODULE,
                    n,
                ) <==> wanted(*descriptor, dependency_type::MODULE).contains(n));
            }
            assert forall|n: Seq<char>|
                had(*store, module_id, dependency_type::PYTHON).contains(n) <==> wanted(
                    *descriptor,
                    dependency_type::PYTHON,
                ).contains(n) by {
                assert(dependency_module::has_name(
                    store.dependency_modules@,
                    store.dependencies@,
                    module_id,
                    dependency_type::PYTHON,
                    n,
                ) <==> wanted(*descriptor, dependency_type::PYTHON).contains(n));
            }
            assert forall|n: Seq<char>|
                had(*store, module_id, dependency_type::BIN).contains(n) <==> wanted(
                    *descriptor,
                    dependency_type::BIN,
                ).contains(n) by {
                assert(dependency_module::has_name(
                    store.dependency_modules@,
                    store.dependencies@,
                    module_id,
                    dependency_type::BIN,
                    n,
                ) <==> wanted(*descriptor, dependency_type::BIN).contains(n));
            }
        }
    }
    a && b && c
}

/// Where the dependencies of a module are those of the descriptor, nothing
/// is said of them.
pub proof fn lemma_nothing_said(store: Store, descriptor: ManifestInfo, module_id: i64)
    requires
        dependencies_match(store, descriptor, module_id),
    ensures
        said_of_dependencies(store, descriptor, module_id) == Seq::<Signature>::empty(),
        first_seen(
            minus(
                wanted(descriptor, dependency_type::PYTHON),
                had(store, module_id, dependency_type::PYTHON),
            ),
        ) == Seq::<Seq<char>>::empty(),
{
    lemma_nothing_to_do(store, descriptor, module_id, dependency_type::MODULE);
    lemma_nothing_to_do(store, descriptor, module_id, dependency_type::PYTHON);
    lemma_nothing_to_do(store, descriptor, module_id, dependency_type::BIN);
    let gone = minus(
        wanted(descriptor, dependency_type::PYTHON),
        had(store, module_id, dependency_type::PYTHON),
    );
    assert(gone =~= Seq::<Seq<char>>::empty());
    assert(first_seen(gone) =~= Seq::<Seq<char>>::empty());
    assert(first_seen(
        minus(
            wanted(descriptor, dependency_type::MODULE),
            had(store, module_id, dependency_type::MODULE),
        ),
    ).len() == 0) by {
        assert(minus(
            wanted(descriptor, dependency_type::MODULE),
            had(store, module_id, dependency_type::MODULE),
        ) =~= Seq::<Seq<char>>::empty());
    }
    assert(first_seen(
        minus(
            wanted(descriptor, dependency_type::BIN),
            had(store, module_id, dependency_type::BIN),
        ),
    ).len() == 0) by {
        assert(minus(
            wanted(descriptor, dependency_type::BIN),
            had(store, module_id, dependency_type::BIN),
        ) =~= Seq::<Seq<char>>::empty());
    }
    assert(said_of_dependencies(store, descriptor, module_id) =~= Seq::<Signature>::empty());
}

/// Whether reconciling the descriptor may draw identities: the catalog does
/// not hold the module of the descriptor with the people and the
/// dependencies that the descriptor gives. Where it holds it so, only
/// fields are written.
pub open spec fn needs_identities(store: Store, descriptor: ManifestInfo) -> bool {
    !exists|o: module::Model|
        #[trigger] module::is_stored_as(store, descriptor, o) && module::people_match(
            store,
            descriptor,
            o.id,
        ) && dependencies_match(store, descriptor, o.id)
}

/// The place of the row of the module of the descriptor, where the catalog
/// holds the module with the people and the dependencies that the
/// descriptor gives.
pub fn place_settled(store: &Store, descriptor: &ManifestInfo) -> (r: Option<usize>)
    requires
        store.wf(),
    ensures
        r is Some <==> !needs_identities(*store, *descriptor),
        r matches Some(i) ==> {
            &&& i < store.modules@.len()
            &&& module::is_stored_as(*store, *descriptor, store.modules@[i as int])
            &&& module::people_match(*store, *descriptor, store.modules@[i as int].id)
            &&& dependencies_match(*store, *descriptor, store.modules@[i as int].id)
            &&& !module::needs_identities(*store, *descriptor)
        },
{
    match module::place_settled(store, descriptor) {
        Some((k, i)) => {
            proof {
                assert(store.modules@.contains(store.modules@[i as int]));
                assert(gh_repository::has_in(
                    store.repositories@,
                    store.modules@[i as int].gh_repository_id.0,
                    descriptor.git_repo@,
                    descriptor.git_org@,
                ));
                assert(module::is_stored_as(*store, *descriptor, store.modules@[i as int]));
                assert forall|o: module::Model| #[trigger]
                    module::is_stored_as(*store, *descriptor, o) implies o
                    == store.modules@[i as int] by {
                    module::lemma_one_stored(*store, *descriptor, o, store.modules@[i as int]);
                }
            }
            if dependencies_are_in_line(store, descriptor, store.modules[i].id) {
                Some(i)
            } else {
                None
            }
        },
        None => None,
    }
}

/// Takes one scraped module into the catalog: the module with its people,
/// as `module::add` does, then its dependencies of the three kinds.
/// Everything that changes is reported, in that order; where the catalog is
/// in line with the descriptor already, nothing is written and nothing
/// reported. A reconciliation fails only where it may draw identities,
/// which a stored module with the people and the dependencies of the
/// descriptor does not, and the sequence of identities may not reach.
pub fn reconcile(store: &mut Store, descriptor: &ManifestInfo, now: &str) -> (r: Result<
    Reconciled,
    StoreError,
>)
    requires
        old(store).wf(),
        descriptor.wf(),
    ensures
        final(store).wf(),
        extends(final(store).system_events@, old(store).system_events@),
        dated(final(store).system_events@, old(store).system_events@, now@),
        r is Err <==> needs_identities(*old(store), *descriptor) && old(store).last_id
            + ids_needed(*descriptor) > i64::MAX,
        r matches Err(e) ==> e == StoreError::IdsExhausted && *final(store) == *old(store),
        in_sync(*old(store), *descriptor) ==> *final(store) == *old(store),
        r is Ok ==> reconciled(*old(store), *descriptor, *final(store)),
        r matches Ok(out) ==> {
            &&& module::synced(*final(store), *descriptor, out.module)
            &&& dependencies_match(*final(store), *descriptor, out.module.id)
            &&& module::taken_in(
                old(store).modules@,
                final(store).modules@,
                *descriptor,
                now@,
                out.module,
            )
            &&& module::others_keep_people(*old(store), *final(store), out.module.id)
            &&& others_keep_dependencies(*old(store), *final(store), out.module.id)
            &&& said(final(store).system_events@, old(store).system_events@) == module::said_by_add(
                *old(store),
                *descriptor,
                out.module,
            ) + said_of_dependencies(*old(store), *descriptor, out.module.id)
            &&& dependency_module::edge_names(out.new_python_edges@) == first_seen(
                minus(
                    wanted(*descriptor, dependency_type::PYTHON),
                    had(*old(store), out.module.id, dependency_type::PYTHON),
                ),
            )
            &&& forall|k: int|
                0 <= k < out.new_python_edges@.len() ==> (
                #[trigger] out.new_python_edges@[k]).module_id.0 == out.module.id
                    && final(store).dependency_modules@.contains(out.new_python_edges@[k])
            &&& final(store).dependency_osvs@ == old(store).dependency_osvs@
            &&& old(store).last_id <= final(store).last_id <= old(store).last_id + ids_needed(
                *descriptor,
            )
            &&& module::homed(
                *old(store),
                *final(store),
                *descriptor,
                out.module.gh_repository_id.0,
            )
            &&& forall|o: module::Model| #[trigger]
                module::is_stored_as(*old(store), *descriptor, o) ==> out.module.id == o.id
                    && module::refreshed(out.module, o, *descriptor, now@)
        },
{
    match place_settled(store, descriptor) {
        Some(i) => {
            let ghost o = store.modules@[i as int];
            let ghost s0 = *store;
            proof {
                lemma_said_nothing(store.system_events@);
            }
            match module::add(store, descriptor, now) {
                Ok(m) => {
                    let edges: Vec<dependency_module::Model> = Vec::new();
                    proof {
                        assert(m.id == o.id);
                        assert(dependencies_match(*store, *descriptor, m.id));
                        lemma_nothing_said(s0, *descriptor, m.id);
                        assert(dependency_module::edge_names(edges@) =~= Seq::<
                            Seq<char>,
                        >::empty());
                        assert(said(store.system_events@, s0.system_events@)
                            =~= module::said_by_add(s0, *descriptor, m) + said_of_dependencies(
                            s0,
                            *descriptor,
                            m.id,
                        ));
                        assert(in_sync(*store, *descriptor));
                        if in_sync(s0, *descriptor) {
                            assert(module::in_sync(s0, *descriptor));
                        }
                    }
                    return Ok(Reconciled { module: m, new_python_edges: edges });
                },
                Err(e) => {
                    return Err(e);
                },
            }
        },
        None => {},
    }
    let needed = module::ids_for(descriptor) + 2 * (descriptor.depends.len() as i128
        + descriptor.external_depends_python.len() as i128
        + descriptor.external_depends_bin.len() as i128);
    if store.last_id as i128 + needed > i64::MAX as i128 {
        proof {
            lemma_said_nothing(store.system_events@);
        }
        return Err(StoreError::IdsExhausted);
    }
    let ghost s0 = *store;
    match module::add(store, descriptor, now) {
        Err(e) => Err(e),
        Ok(m) => {
            let ghost s1 = *store;
            proof {
                assert(s1.modules@.contains(m));
                let k = choose|k: int| 0 <= k < s1.modules@.len() && s1.modules@[k] == m;
                assert(s1.modules@[k].id == m.id);
            }
            let added = sync_dependencies(store, descriptor, m.id, now);
            proof {
                lemma_said_in_turn(s0.system_events@, s1.system_events@, store.system_events@);
                assert(module::synced(*store, *descriptor, m) && dependencies_match(
                    *store,
                    *descriptor,
                    m.id,
                ));
                if in_sync(s0, *descriptor) {
                    let w = choose|w: module::Model|
                        module::synced(s0, *descriptor, w) && dependencies_match(
                            s0,
                            *descriptor,
                            w.id,
                        );
                    assert(module::in_sync(s0, *descriptor));
                    assert(s1 == s0);
                    module::lemma_one_synced(s0, *descriptor, w, m);
                }
            }
            Ok(Reconciled { module: m, new_python_edges: added })
        },
    }
}

} // verus!
