//! Vulnerability records of interpreter packages, each attached to the edge
//! between a module and the package.

use crate::models::dependency_module;
use crate::models::module;
use crate::models::store::Store;
use crate::text::same_text;
use vstd::prelude::*;

verus! {

/// One vulnerability of one edge. `dependency_module_id` is the edge's
/// identity and a copy of the package's name.
#[derive(Debug)]
pub struct Model {
    pub id: i64,
    pub dependency_module_id: (i64, String),
    pub osv_id: String,
    pub details: String,
    pub fixed_in: String,
}

/// One vulnerability with the module and the package that it concerns.
#[derive(Debug)]
pub struct DependencyModuleOSVInfo {
    pub version_odoo: u8,
    pub module_name: String,
    pub module_technical_name: String,
    pub name: String,
    pub osv_id: String,
    pub details: String,
    pub fixed_in: String,
}

impl Model {
    /// A copy of the row.
    pub fn duplicate(&self) -> (r: Model)
        ensures
            r == *self,
    {
        Model {
            id: self.id,
            dependency_module_id: (
                self.dependency_module_id.0,
                self.dependency_module_id.1.clone(),
            ),
            osv_id: self.osv_id.clone(),
            details: self.details.clone(),
            fixed_in: self.fixed_in.clone(),
        }
    }
}

/// Identities lie in `1..=last_id`.
pub open spec fn ids_below(rows: Seq<Model>, last_id: i64) -> bool {
    forall|i: int| 0 <= i < rows.len() ==> 0 < (#[trigger] rows[i]).id <= last_id
}

/// No identity occurs twice, and no record twice on one edge.
pub open spec fn well_keyed(rows: Seq<Model>) -> bool {
    &&& forall|i: int, j: int|
        0 <= i < j < rows.len() ==> (#[trigger] rows[i]).id != (#[trigger] rows[j]).id
    &&& forall|i: int, j: int|
        0 <= i < j < rows.len() ==> !((#[trigger] rows[i]).dependency_module_id.0 == (
        #[trigger] rows[j]).dependency_module_id.0 && rows[i].osv_id@ == rows[j].osv_id@)
}

/// Whether the edge `dep_mod_id` has the record `osv_id`.
pub open spec fn has_record(rows: Seq<Model>, dep_mod_id: i64, osv_id: Seq<char>) -> bool {
    exists|i: int|
        0 <= i < rows.len() && (#[trigger] rows[i]).dependency_module_id.0 == dep_mod_id
            && rows[i].osv_id@ == osv_id
}

/// The record `osv_id` of the edge `dep_mod_id`.
pub fn get_by_dep_mod_id_osv_id(store: &Store, dep_mod_id: &i64, osv_id: &String) -> (r: Option<
    Model,
>)
    ensures
        r is Some <==> has_record(store.dependency_osvs@, *dep_mod_id, osv_id@),
        r matches Some(m) ==> store.dependency_osvs@.contains(m) && m.dependency_module_id.0
            == *dep_mod_id && m.osv_id@ == osv_id@,
{
    let mut i: usize = 0;
    while i < store.dependency_osvs.len()
        invariant
            i <= store.dependency_osvs.len(),
            forall|k: int|
                0 <= k < i ==> !((#[trigger] store.dependency_osvs@[k]).dependency_module_id.0
                    == *dep_mod_id && store.dependency_osvs@[k].osv_id@ == osv_id@),
        decreases store.dependency_osvs.len() - i,
    {
        if store.dependency_osvs[i].dependency_module_id.0 == *dep_mod_id && same_text(
            store.dependency_osvs[i].osv_id.as_str(),
            osv_id.as_str(),
        ) {
            return Some(store.dependency_osvs[i].duplicate());
        }
        i += 1;
    }
    None
}

/// The record `osv_id` of the edge `dep_mod_id`, entered first, with
/// `details` and `fixed_in`, where the edge has none of that name.
pub fn add(store: &mut Store, dep_mod_id: &i64, osv_id: &str, details: &str, fixed_in: &str) -> (r:
    Model)
    requires
        old(store).wf(),
        old(store).last_id < i64::MAX,
        dependency_module::has_id(old(store).dependency_modules@, *dep_mod_id),
    ensures
        final(store).wf(),
        r.dependency_module_id.0 == *dep_mod_id,
        r.osv_id@ == osv_id@,
        final(store).dependency_osvs@.contains(r),
        has_record(old(store).dependency_osvs@, *dep_mod_id, osv_id@) ==> *final(store) == *old(
            store,
        ),
        !has_record(old(store).dependency_osvs@, *dep_mod_id, osv_id@) ==> {
            &&& r.id == old(store).last_id + 1
            &&& r.details@ == details@
            &&& r.fixed_in@ == fixed_in@
            &&& exists|i: int|
                0 <= i < old(store).dependency_modules@.len() && (#[trigger] old(
                    store,
                ).dependency_modules@[i]).id == *dep_mod_id && r.dependency_module_id.1 == old(
                    store,
                ).dependency_modules@[i].dependency_id.1
            &&& final(store).dependency_osvs@ == old(store).dependency_osvs@.push(r)
            &&& *final(store) == (Store {
                dependency_osvs: final(store).dependency_osvs,
                last_id: r.id,
                ..*old(store)
            })
        },
{
    let key = osv_id.to_owned();
    match get_by_dep_mod_id_osv_id(store, dep_mod_id, &key) {
        Some(found) => found,
        None => {
            let edge = dependency_module::get_by_id(store, dep_mod_id).unwrap();
            let id = store.fresh_id();
            let row = Model {
                id,
                dependency_module_id: (edge.id, edge.dependency_id.1),
                osv_id: key,
                details: details.to_owned(),
                fixed_in: fixed_in.to_owned(),
            };
            let r = row.duplicate();
            store.dependency_osvs.push(row);
            proof {
                assert(store.dependency_osvs@[store.dependency_osvs@.len() - 1] == r);
                let i = choose|i: int|
                    0 <= i < old(store).dependency_modules@.len() && old(
                        store,
                    ).dependency_modules@[i] == edge;
                assert(old(store).dependency_modules@[i].id == *dep_mod_id);
            }
            r
        },
    }
}

/// The rows stay well keyed and below `last_id` without the row at `i`.
pub proof fn lemma_after_remove(rows: Seq<Model>, i: int, last_id: i64)
    requires
        0 <= i < rows.len(),
        well_keyed(rows),
        ids_below(rows, last_id),
    ensures
        well_keyed(rows.remove(i)),
        ids_below(rows.remove(i), last_id),
        forall|r: Model| rows.remove(i).contains(r) ==> rows.contains(r),
        forall|k: int| 0 <= k < rows.len() && k != i ==> rows.remove(i).contains(#[trigger] rows[k]),
{
    let s = rows.remove(i);
    rows.remove_ensures(i);
    assert forall|k: int| 0 <= k < s.len() implies #[trigger] s[k] == rows[if k < i {
        k
    } else {
        k + 1
    }] by {}
    assert forall|k: int| 0 <= k < rows.len() && k != i implies s.contains(#[trigger] rows[k]) by {
        if k < i {
            assert(s[k] == rows[k]);
        } else {
            assert(s[k - 1] == rows[k]);
        }
    }
    assert forall|a: int, b: int| 0 <= a < b < s.len() implies (#[trigger] s[a]).id != (
    #[trigger] s[b]).id && !(s[a].dependency_module_id.0 == s[b].dependency_module_id.0
        && s[a].osv_id@ == s[b].osv_id@) by {
        let a2 = if a < i {
            a
        } else {
            a + 1
        };
        let b2 = if b < i {
            b
        } else {
            b + 1
        };
        assert(s[a] == rows[a2]);
        assert(s[b] == rows[b2]);
    }
}

/// Whether the edge `edge_id` is an edge of the module `module_id`.
pub open spec fn edge_of_module(
    edges: Seq<dependency_module::Model>,
    edge_id: i64,
    module_id: i64,
) -> bool {
    exists|e: dependency_module::Model|
        #[trigger] edges.contains(e) && e.id == edge_id && e.module_id.0 == module_id
}

/// Takes every record on an edge of the module `module_id` away, and says
/// how many rows went.
pub fn delete_by_module_id(store: &mut Store, module_id: &i64) -> (r: usize)
    requires
        old(store).wf(),
    ensures
        final(store).wf(),
        forall|m: Model|
            final(store).dependency_osvs@.contains(m) <==> old(store).dependency_osvs@.contains(m)
                && !edge_of_module(
                old(store).dependency_modules@,
                m.dependency_module_id.0,
                *module_id,
            ),
        old(store).dependency_osvs@.len() == final(store).dependency_osvs@.len() + r,
        *final(store) == (Store { dependency_osvs: final(store).dependency_osvs, ..*old(store) }),
{
    let mut i: usize = 0;
    let mut r: usize = 0;
    while i < store.dependency_osvs.len()
        invariant
            i <= store.dependency_osvs.len(),
            store.wf(),
            *store == (Store { dependency_osvs: store.dependency_osvs, ..*old(store) }),
            old(store).dependency_osvs@.len() == store.dependency_osvs@.len() + r,
            forall|k: int|
                0 <= k < i ==> !edge_of_module(
                    store.dependency_modules@,
                    (#[trigger] store.dependency_osvs@[k]).dependency_module_id.0,
                    *module_id,
                ),
            forall|m: Model|
                store.dependency_osvs@.contains(m) ==> old(store).dependency_osvs@.contains(m),
            forall|m: Model|
                old(store).dependency_osvs@.contains(m) && !edge_of_module(
                    store.dependency_modules@,
                    m.dependency_module_id.0,
                    *module_id,
                ) ==> store.dependency_osvs@.contains(m),
        decreases store.dependency_osvs.len() - i,
    {
        let edge = dependency_module::get_by_id(store, &store.dependency_osvs[i].dependency_module_id.0);
        let of_module = match edge {
            Some(e) => e.module_id.0 == *module_id,
            None => false,
        };
        proof {
            let edges = store.dependency_modules@;
            let id = store.dependency_osvs@[i as int].dependency_module_id.0;
            if edge_of_module(edges, id, *module_id) {
                let w = choose|w: dependency_module::Model|
                    #[trigger] edges.contains(w) && w.id == id && w.module_id.0 == *module_id;
                let a = choose|a: int| 0 <= a < edges.len() && edges[a] == w;
                assert(dependency_module::has_id(edges, id));
                let b = choose|b: int| 0 <= b < edges.len() && edges[b] == edge->0;
                if a < b {
                    assert(edges[a].id != edges[b].id);
                } else if b < a {
                    assert(edges[b].id != edges[a].id);
                }
            }
        }
        if of_module {
            let ghost rows = store.dependency_osvs@;
            proof {
                lemma_after_remove(rows, i as int, store.last_id);
            }
            let gone = store.dependency_osvs.remove(i);
            proof {
                assert(old(store).dependency_osvs.len() <= usize::MAX);
                rows.remove_ensures(i as int);
                assert forall|m: Model|
                    old(store).dependency_osvs@.contains(m) && !edge_of_module(
                        store.dependency_modules@,
                        m.dependency_module_id.0,
                        *module_id,
                    ) implies store.dependency_osvs@.contains(m) by {
                    let k = choose|k: int| 0 <= k < rows.len() && rows[k] == m;
                    assert(k != i);
                }
            }
            r += 1;
        } else {
            i += 1;
        }
    }
    proof {
        assert forall|m: Model| store.dependency_osvs@.contains(m) implies !edge_of_module(
            old(store).dependency_modules@,
            m.dependency_module_id.0,
            *module_id,
        ) by {
            let k = choose|k: int|
                0 <= k < store.dependency_osvs@.len() && store.dependency_osvs@[k] == m;
        }
    }
    r
}

/// The edge with the identity `id`.
pub open spec fn edge_with(edges: Seq<dependency_module::Model>, id: i64) -> dependency_module::Model {
    edges[choose|i: int| 0 <= i < edges.len() && (#[trigger] edges[i]).id == id]
}

/// The module with the identity `id`.
pub open spec fn module_with(modules: Seq<module::Model>, id: i64) -> module::Model {
    modules[choose|i: int| 0 <= i < modules.len() && (#[trigger] modules[i]).id == id]
}

/// Whether the record `o` can be told of: the catalog has its edge and the
/// module of that edge.
pub open spec fn is_whole(store: Store, o: Model) -> bool {
    dependency_module::has_id(store.dependency_modules@, o.dependency_module_id.0)
        && module::has_id(
        store.modules@,
        edge_with(store.dependency_modules@, o.dependency_module_id.0).module_id.0,
    )
}

/// The records among the first `n` that can be told of, in order.
pub open spec fn whole_records(store: Store, n: int) -> Seq<Model>
    decreases n,
{
    if n <= 0 || n > store.dependency_osvs@.len() {
        Seq::<Model>::empty()
    } else {
        let init = whole_records(store, n - 1);
        if is_whole(store, store.dependency_osvs@[n - 1]) {
            init.push(store.dependency_osvs@[n - 1])
        } else {
            init
        }
    }
}

/// Whether `info` tells of the record `o`: the record, the package that it
/// is about, and the module that depends on the package.
pub open spec fn tells_of(info: DependencyModuleOSVInfo, store: Store, o: Model) -> bool {
    let edge = edge_with(store.dependency_modules@, o.dependency_module_id.0);
    let m = module_with(store.modules@, edge.module_id.0);
    &&& info.version_odoo == m.version_odoo
    &&& info.module_name@ == m.name@
    &&& info.module_technical_name@ == m.technical_name@
    &&& info.name@ == edge.dependency_id.1@
    &&& info.osv_id@ == o.osv_id@
    &&& info.details@ == o.details@
    &&& info.fixed_in@ == o.fixed_in@
}

/// Every vulnerability record, with the package and the module that it
/// concerns, in the order of the records.
pub fn get_osv_info(store: &Store) -> (r: Vec<DependencyModuleOSVInfo>)
    requires
        store.wf(),
    ensures
        r@.len() == whole_records(*store, store.dependency_osvs@.len() as int).len(),
        forall|k: int|
            0 <= k < r@.len() ==> tells_of(
                #[trigger] r@[k],
                *store,
                whole_records(*store, store.dependency_osvs@.len() as int)[k],
            ),
{
    let mut r: Vec<DependencyModuleOSVInfo> = Vec::new();
    let mut i: usize = 0;
    while i < store.dependency_osvs.len()
        invariant
            i <= store.dependency_osvs.len(),
            store.wf(),
            r@.len() == whole_records(*store, i as int).len(),
            forall|k: int|
                0 <= k < r@.len() ==> tells_of(
                    #[trigger] r@[k],
                    *store,
                    whole_records(*store, i as int)[k],
                ),
        decreases store.dependency_osvs.len() - i,
    {
        let o = &store.dependency_osvs[i];
        let ghost before = r@;
        match dependency_module::get_by_id(store, &o.dependency_module_id.0) {
            Some(edge) => {
                proof {
                    let edges = store.dependency_modules@;
                    let a = choose|a: int| 0 <= a < edges.len() && edges[a] == edge;
                    let b = choose|b: int|
                        0 <= b < edges.len() && (#[trigger] edges[b]).id
                            == o.dependency_module_id.0;
                    if a < b {
                        assert(edges[a].id != edges[b].id);
                    } else if b < a {
                        assert(edges[b].id != edges[a].id);
                    }
                }
                match module::get_by_id(store, &edge.module_id.0) {
                    Some(m) => {
                        proof {
                            let rows = store.modules@;
                            let a = choose|a: int| 0 <= a < rows.len() && rows[a] == m;
                            let b = choose|b: int|
                                0 <= b < rows.len() && (#[trigger] rows[b]).id
                                    == edge.module_id.0;
                            if a < b {
                                assert(rows[a].id != rows[b].id);
                            } else if b < a {
                                assert(rows[b].id != rows[a].id);
                            }
                        }
                        r.push(
                            DependencyModuleOSVInfo {
                                version_odoo: m.version_odoo,
                                module_name: m.name,
                                module_technical_name: m.technical_name,
                                name: edge.dependency_id.1,
                                osv_id: o.osv_id.clone(),
                                details: o.details.clone(),
                                fixed_in: o.fixed_in.clone(),
                            },
                        );
                        proof {
                            assert forall|k: int| 0 <= k < before.len() implies r@[k]
                                == before[k] by {}
                        }
                    },
                    None => {},
                }
            },
            None => {},
        }
        i += 1;
    }
    r
}

} // verus!
