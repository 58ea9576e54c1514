//! The committers of each module and how many commits each has made to it.

use crate::models::committer;
use crate::models::module;
use crate::models::store::Store;
use crate::models::system_event::{
    dated,     extends, lemma_said_after_push, lemma_said_in_turn, lemma_said_nothing, one_each,
    register_new_module_committer, said, EventKind, Signature,
};
use crate::names::{distinct, lemma_take_contains_step, minus};
use crate::text::{same_text, texts};
use crate::version::odoo_version_u8_to_string;
use vstd::prelude::*;

verus! {

/// One committer of one module. `module_id` is the module's identity and a copy
/// of its technical name, `committer_id` the committer's identity and a copy of the
/// committer's name.
#[derive(Debug)]
pub struct Model {
    pub id: i64,
    pub module_id: (i64, String),
    pub committer_id: (i64, String),
    pub commits: u32,
}

impl Model {
    /// A copy of the row.
    pub fn duplicate(&self) -> (r: Model)
        ensures
            r == *self,
    {
        Model {
            id: self.id,
            module_id: (self.module_id.0, self.module_id.1.clone()),
            committer_id: (self.committer_id.0, self.committer_id.1.clone()),
            commits: self.commits,
        }
    }
}

/// Identities lie in `1..=last_id`.
pub open spec fn ids_below(rows: Seq<Model>, last_id: i64) -> bool {
    forall|i: int| 0 <= i < rows.len() ==> 0 < (#[trigger] rows[i]).id <= last_id
}

/// No identity occurs twice, and no committer twice on one module.
pub open spec fn well_keyed(rows: Seq<Model>) -> bool {
    &&& forall|i: int, j: int|
        0 <= i < j < rows.len() ==> (#[trigger] rows[i]).id != (#[trigger] rows[j]).id
    &&& forall|i: int, j: int|
        0 <= i < j < rows.len() ==> !((#[trigger] rows[i]).module_id.0 == (
        #[trigger] rows[j]).module_id.0 && rows[i].committer_id.0 == rows[j].committer_id.0)
}

/// Every row's committer is in `committers`, under the name that the row holds.
pub open spec fn linked(rows: Seq<Model>, committers: Seq<committer::Model>) -> bool {
    forall|i: int|
        0 <= i < rows.len() ==> committer::has(
            committers,
            (#[trigger] rows[i]).committer_id.0,
            rows[i].committer_id.1@,
        )
}

/// Whether the module `module_id` has a committer named `name`.
pub open spec fn has_name(rows: Seq<Model>, module_id: i64, name: Seq<char>) -> bool {
    exists|e: Model|
        #[trigger] rows.contains(e) && e.module_id.0 == module_id && e.committer_id.1@ == name
}

/// Whether the module `module_id` has a committer named `name` with
/// `commits` commits.
pub open spec fn has_count(rows: Seq<Model>, module_id: i64, name: Seq<char>, commits: u32) -> bool {
    exists|e: Model|
        #[trigger] rows.contains(e) && e.module_id.0 == module_id && e.committer_id.1@ == name
            && e.commits == commits
}

/// Whether the module `module_id` has the committer `name` with `commits`
/// commits.
pub fn has_commits(store: &Store, module_id: &i64, name: &str, commits: &u32) -> (r: bool)
    ensures
        r == has_count(store.module_committers@, *module_id, name@, *commits),
{
    let mut i: usize = 0;
    while i < store.module_committers.len()
        invariant
            i <= store.module_committers.len(),
            forall|k: int|
                0 <= k < i ==> !((#[trigger] store.module_committers@[k]).module_id.0 == *module_id
                    && store.module_committers@[k].committer_id.1@ == name@
                    && store.module_committers@[k].commits == *commits),
        decreases store.module_committers.len() - i,
    {
        if store.module_committers[i].module_id.0 == *module_id && store.module_committers[i].commits
            == *commits && same_text(store.module_committers[i].committer_id.1.as_str(), name) {
            assert(store.module_committers@.contains(store.module_committers@[i as int]));
            return true;
        }
        i += 1;
    }
    proof {
        if has_count(store.module_committers@, *module_id, name@, *commits) {
            let e = choose|e: Model|
                #[trigger] store.module_committers@.contains(e) && e.module_id.0 == *module_id
                    && e.committer_id.1@ == name@ && e.commits == *commits;
            let k = choose|k: int|
                0 <= k < store.module_committers@.len() && store.module_committers@[k] == e;
            assert(store.module_committers@[k].module_id.0 == *module_id);
        }
    }
    false
}

/// The rows stay linked after one more row in `committers`.
pub proof fn lemma_linked_after_push(rows: Seq<Model>, committers: Seq<committer::Model>, r: committer::Model)
    requires
        linked(rows, committers),
    ensures
        linked(rows, committers.push(r)),
{
    assert forall|i: int| 0 <= i < rows.len() implies committer::has(
        committers.push(r),
        (#[trigger] rows[i]).committer_id.0,
        rows[i].committer_id.1@,
    ) by {
        committer::lemma_has_after_push(committers, r, rows[i].committer_id.0, rows[i].committer_id.1@);
    }
}

/// The rows stay well keyed and below `last_id` without the row at `i`, and
/// linked to `committers`.
pub proof fn lemma_after_remove(
    rows: Seq<Model>,
    i: int,
    last_id: i64,
    committers: Seq<committer::Model>,
)
    requires
        0 <= i < rows.len(),
        well_keyed(rows),
        ids_below(rows, last_id),
        linked(rows, committers),
    ensures
        well_keyed(rows.remove(i)),
        ids_below(rows.remove(i), last_id),
        linked(rows.remove(i), committers),
        forall|r: Model| rows.remove(i).contains(r) ==> rows.contains(r),
        forall|k: int| 0 <= k < rows.len() && k != i ==> rows.remove(i).contains(#[trigger] rows[k]),
{
    let s = rows.remove(i);
    rows.remove_ensures(i);
    assert forall|k: int| 0 <= k < s.len() implies #[trigger] s[k] == rows[if k < i {
        k
    } else {
        k + 1
    }] by {}
    assert forall|k: int| 0 <= k < rows.len() && k != i implies s.contains(#[trigger] rows[k]) by {
        if k < i {
            assert(s[k] == rows[k]);
        } else {
            assert(s[k - 1] == rows[k]);
        }
    }
    assert forall|a: int, b: int| 0 <= a < b < s.len() implies (#[trigger] s[a]).id != (
    #[trigger] s[b]).id && !(s[a].module_id.0 == s[b].module_id.0 && s[a].committer_id.0
        == s[b].committer_id.0) by {
        let a2 = if a < i {
            a
        } else {
            a + 1
        };
        let b2 = if b < i {
            b
        } else {
            b + 1
        };
        assert(s[a] == rows[a2]);
        assert(s[b] == rows[b2]);
    }
    assert forall|k: int| 0 <= k < s.len() implies committer::has(
        committers,
        (#[trigger] s[k]).committer_id.0,
        s[k].committer_id.1@,
    ) by {
        let k2 = if k < i {
            k
        } else {
            k + 1
        };
        assert(s[k] == rows[k2]);
    }
}

/// In a well-formed catalog two rows name the same committer where they hold
/// the same committer identity.
pub proof fn lemma_same_committer(store: Store, a: int, b: int)
    requires
        store.wf(),
        0 <= a < store.module_committers@.len(),
        0 <= b < store.module_committers@.len(),
    ensures
        store.module_committers@[a].committer_id.0 == store.module_committers@[b].committer_id.0
            <==> store.module_committers@[a].committer_id.1@ == store.module_committers@[b].committer_id.1@,
{
    let rows = store.module_committers@;
    let committers = store.committers@;
    let x = choose|x: int|
        0 <= x < committers.len() && (#[trigger] committers[x]).id == rows[a].committer_id.0
            && committers[x].name@ == rows[a].committer_id.1@;
    let y = choose|y: int|
        0 <= y < committers.len() && (#[trigger] committers[y]).id == rows[b].committer_id.0
            && committers[y].name@ == rows[b].committer_id.1@;
    if x < y {
        assert(committers[x].id != committers[y].id);
    } else if y < x {
        assert(committers[y].id != committers[x].id);
    }
}

/// The row that links the module `module_id` to the committer `committer_id`.
pub fn get_by_id(store: &Store, module_id: &i64, committer_id: &i64) -> (r: Option<Model>)
    ensures
        r is Some <==> exists|i: int|
            0 <= i < store.module_committers@.len() && (#[trigger] store.module_committers@[i]).module_id.0
                == *module_id && store.module_committers@[i].committer_id.0 == *committer_id,
        r matches Some(m) ==> store.module_committers@.contains(m) && m.module_id.0 == *module_id
            && m.committer_id.0 == *committer_id,
{
    let mut i: usize = 0;
    while i < store.module_committers.len()
        invariant
            i <= store.module_committers.len(),
            forall|k: int|
                0 <= k < i ==> !((#[trigger] store.module_committers@[k]).module_id.0 == *module_id
                    && store.module_committers@[k].committer_id.0 == *committer_id),
        decreases store.module_committers.len() - i,
    {
        if store.module_committers[i].module_id.0 == *module_id && store.module_committers[i].committer_id.0
            == *committer_id {
            return Some(store.module_committers[i].duplicate());
        }
        i += 1;
    }
    None
}

/// The row that links the module `module_id` to the committer named `name`.
pub fn get_by_name(store: &Store, module_id: &i64, name: &str) -> (r: Option<Model>)
    ensures
        r is Some <==> has_name(store.module_committers@, *module_id, name@),
        r matches Some(m) ==> store.module_committers@.contains(m) && m.module_id.0 == *module_id
            && m.committer_id.1@ == name@,
{
    let mut i: usize = 0;
    while i < store.module_committers.len()
        invariant
            i <= store.module_committers.len(),
            forall|k: int|
                0 <= k < i ==> !((#[trigger] store.module_committers@[k]).module_id.0 == *module_id
                    && store.module_committers@[k].committer_id.1@ == name@),
        decreases store.module_committers.len() - i,
    {
        if store.module_committers[i].module_id.0 == *module_id && same_text(
            store.module_committers[i].committer_id.1.as_str(),
            name,
        ) {
            assert(store.module_committers@.contains(store.module_committers@[i as int]));
            return Some(store.module_committers[i].duplicate());
        }
        i += 1;
    }
    None
}

/// The rows of `rows` that belong to the module `module_id`, in order.
pub open spec fn of_module(rows: Seq<Model>, module_id: i64) -> Seq<Model>
    decreases rows.len(),
{
    if rows.len() == 0 {
        Seq::<Model>::empty()
    } else {
        let init = of_module(rows.drop_last(), module_id);
        if rows.last().module_id.0 == module_id {
            init.push(rows.last())
        } else {
            init
        }
    }
}

/// The names of the committers of the module `module_id`, in the order of the
/// rows.
pub open spec fn names_of_module(rows: Seq<Model>, module_id: i64) -> Seq<Seq<char>>
    decreases rows.len(),
{
    if rows.len() == 0 {
        Seq::<Seq<char>>::empty()
    } else {
        let init = names_of_module(rows.drop_last(), module_id);
        if rows.last().module_id.0 == module_id {
            init.push(rows.last().committer_id.1@)
        } else {
            init
        }
    }
}

/// A name is among the names of a module's committers where a row links the
/// module to it.
pub proof fn lemma_names_of_module(rows: Seq<Model>, module_id: i64, name: Seq<char>)
    ensures
        names_of_module(rows, module_id).contains(name) <==> has_name(rows, module_id, name),
    decreases rows.len(),
{
    if rows.len() > 0 {
        let init = rows.drop_last();
        lemma_names_of_module(init, module_id, name);
        let before = names_of_module(init, module_id);
        let last = rows.last();
        if has_name(init, module_id, name) {
            let e = choose|e: Model|
                #[trigger] init.contains(e) && e.module_id.0 == module_id && e.committer_id.1@
                    == name;
            let i = choose|i: int| 0 <= i < init.len() && init[i] == e;
            assert(rows[i] == e);
            assert(rows.contains(e));
        }
        if has_name(rows, module_id, name) {
            let e = choose|e: Model|
                #[trigger] rows.contains(e) && e.module_id.0 == module_id && e.committer_id.1@
                    == name;
            let i = choose|i: int| 0 <= i < rows.len() && rows[i] == e;
            if i < rows.len() - 1 {
                assert(init[i] == e);
                assert(init.contains(e));
            }
        }
        if last.module_id.0 == module_id {
            let after = before.push(last.committer_id.1@);
            assert(after[before.len() as int] == last.committer_id.1@);
            assert(rows[rows.len() - 1] == last);
            assert(rows.contains(last));
            if before.contains(name) {
                let i = choose|i: int| 0 <= i < before.len() && before[i] == name;
                assert(after[i] == name);
            }
            if after.contains(name) {
                let i = choose|i: int| 0 <= i < after.len() && after[i] == name;
                if i < before.len() {
                    assert(before[i] == name);
                }
            }
        }
    }
}

/// The rows of the module `module_id`.
pub fn get_by_module_id(store: &Store, module_id: &i64) -> (r: Vec<Model>)
    ensures
        r@ == of_module(store.module_committers@, *module_id),
{
    let mut r: Vec<Model> = Vec::new();
    let mut i: usize = 0;
    proof {
        assert(store.module_committers@.take(0) =~= Seq::<Model>::empty());
    }
    while i < store.module_committers.len()
        invariant
            i <= store.module_committers.len(),
            r@ == of_module(store.module_committers@.take(i as int), *module_id),
        decreases store.module_committers.len() - i,
    {
        proof {
            assert(store.module_committers@.take(i + 1).drop_last() =~= store.module_committers@.take(
                i as int,
            ));
        }
        if store.module_committers[i].module_id.0 == *module_id {
            r.push(store.module_committers[i].duplicate());
        }
        i += 1;
    }
    proof {
        assert(store.module_committers@.take(store.module_committers@.len() as int)
            =~= store.module_committers@);
    }
    r
}

/// The names of the committers of the module `module_id`.
pub fn get_names_by_module_id(store: &Store, module_id: &i64) -> (r: Vec<String>)
    ensures
        texts(r@) == names_of_module(store.module_committers@, *module_id),
{
    let mut r: Vec<String> = Vec::new();
    let mut i: usize = 0;
    proof {
        assert(store.module_committers@.take(0) =~= Seq::<Model>::empty());
        assert(texts(r@) =~= Seq::<Seq<char>>::empty());
    }
    while i < store.module_committers.len()
        invariant
            i <= store.module_committers.len(),
            texts(r@) == names_of_module(store.module_committers@.take(i as int), *module_id),
        decreases store.module_committers.len() - i,
    {
        proof {
            assert(store.module_committers@.take(i + 1).drop_last() =~= store.module_committers@.take(
                i as int,
            ));
        }
        if store.module_committers[i].module_id.0 == *module_id {
            let ghost before = r@;
            r.push(store.module_committers[i].committer_id.1.clone());
            assert(texts(r@) =~= texts(before).push(store.module_committers@[i as int].committer_id.1@));
        }
        i += 1;
    }
    proof {
        assert(store.module_committers@.take(store.module_committers@.len() as int)
            =~= store.module_committers@);
    }
    r
}

/// Where the module `module_id` stands linked to the committer named
/// `name`.
pub fn position(store: &Store, module_id: &i64, name: &str) -> (r: Option<usize>)
    ensures
        r is Some <==> has_name(store.module_committers@, *module_id, name@),
        r matches Some(i) ==> i < store.module_committers@.len()
            && store.module_committers@[i as int].module_id.0 == *module_id
            && store.module_committers@[i as int].committer_id.1@ == name@,
{
    let mut i: usize = 0;
    while i < store.module_committers.len()
        invariant
            i <= store.module_committers.len(),
            forall|k: int|
                0 <= k < i ==> !((#[trigger] store.module_committers@[k]).module_id.0 == *module_id
                    && store.module_committers@[k].committer_id.1@ == name@),
        decreases store.module_committers.len() - i,
    {
        if store.module_committers[i].module_id.0 == *module_id && same_text(
            store.module_committers[i].committer_id.1.as_str(),
            name,
        ) {
            assert(store.module_committers@.contains(store.module_committers@[i as int]));
            return Some(i);
        }
        i += 1;
    }
    None
}

/// In a well-formed catalog one row at most links a module to a name.
pub proof fn lemma_linked_once(store: Store, i: int, k: int)
    requires
        store.wf(),
        0 <= i < store.module_committers@.len(),
        0 <= k < store.module_committers@.len(),
        store.module_committers@[i].module_id.0 == store.module_committers@[k].module_id.0,
        store.module_committers@[i].committer_id.1@ == store.module_committers@[k].committer_id.1@,
    ensures
        i == k,
{
    lemma_same_committer(store, k, i);
    if k < i {
        assert(!(store.module_committers@[k].module_id.0 == store.module_committers@[i].module_id.0
            && store.module_committers@[k].committer_id.0
            == store.module_committers@[i].committer_id.0));
    } else if i < k {
        assert(!(store.module_committers@[i].module_id.0 == store.module_committers@[k].module_id.0
            && store.module_committers@[i].committer_id.0
            == store.module_committers@[k].committer_id.0));
    }
}

/// Sets the number of commits that the committer named `name` has made to
/// the module `module_id`. Where the module is not linked to that name yet,
/// it is linked; the committer is entered first where the catalog has none of
/// that name, and the link is reported.
pub fn add(store: &mut Store, module_id: &i64, name: &str, commits: &u32, now: &str) -> (r: Model)
    requires
        old(store).wf(),
        old(store).last_id < i64::MAX - 1,
        module::has_id(old(store).modules@, *module_id),
    ensures
        final(store).wf(),
        r.module_id.0 == *module_id,
        r.committer_id.1@ == name@,
        r.commits == *commits,
        final(store).module_committers@.contains(r),
        extends(final(store).system_events@, old(store).system_events@),
        dated(final(store).system_events@, old(store).system_events@, now@),
        forall|m2: i64, n: Seq<char>, c: u32|
            #[trigger] has_count(final(store).module_committers@, m2, n, c) <==> if m2
                == *module_id && n == name@ {
                c == *commits
            } else {
                has_count(old(store).module_committers@, m2, n, c)
            },
        forall|m2: i64, n: Seq<char>|
            #[trigger] has_name(final(store).module_committers@, m2, n) <==> has_name(
                old(store).module_committers@,
                m2,
                n,
            ) || (m2 == *module_id && n == name@),
        has_count(old(store).module_committers@, *module_id, name@, *commits) ==> *final(store)
            == *old(store),
        has_name(old(store).module_committers@, *module_id, name@) ==> {
            &&& final(store).module_committers@.len() == old(store).module_committers@.len()
            &&& *final(store) == (Store {
                module_committers: final(store).module_committers,
                ..*old(store)
            })
        },
        !has_name(old(store).module_committers@, *module_id, name@) ==> {
            &&& final(store).module_committers@ == old(store).module_committers@.push(r)
            &&& said(final(store).system_events@, old(store).system_events@) == one_each(
                EventKind::NewCommitter,
                seq![name@],
                ""@,
                *module_id,
            )
            &&& final(store).system_events@.last().date@ == now@
            &&& old(store).last_id < final(store).last_id <= old(store).last_id + 2
            &&& *final(store) == (Store {
                committers: final(store).committers,
                module_committers: final(store).module_committers,
                system_events: final(store).system_events,
                last_id: final(store).last_id,
                ..*old(store)
            })
        },
{
    proof {
        lemma_said_nothing(store.system_events@);
    }
    match position(store, module_id, name) {
        Some(i) => {
            let ghost rows = store.module_committers@;
            proof {
                assert forall|k: int|
                    0 <= k < rows.len() && (#[trigger] rows[k]).module_id.0 == *module_id
                        && rows[k].committer_id.1@ == name@ implies k == i by {
                    lemma_linked_once(*store, i as int, k);
                }
            }
            if store.module_committers[i].commits == *commits {
                proof {
                    assert(rows.contains(rows[i as int]));
                    assert forall|m2: i64, n: Seq<char>, c: u32|
                        #[trigger] has_count(rows, m2, n, c) <==> if m2 == *module_id && n
                            == name@ {
                            c == *commits
                        } else {
                            has_count(rows, m2, n, c)
                        } by {
                        if m2 == *module_id && n == name@ && has_count(rows, m2, n, c) {
                            let w = choose|w: Model|
                                #[trigger] rows.contains(w) && w.module_id.0 == m2
                                    && w.committer_id.1@ == n && w.commits == c;
                            let k = choose|k: int| 0 <= k < rows.len() && rows[k] == w;
                            assert(k == i);
                        }
                    }
                }
                return store.module_committers[i].duplicate();
            }
            let found = store.module_committers[i].duplicate();
            let row = Model {
                id: found.id,
                module_id: found.module_id,
                committer_id: found.committer_id,
                commits: *commits,
            };
            let r = row.duplicate();
            store.module_committers.set(i, row);
            proof {
                let after = store.module_committers@;
                assert(after[i as int] == r);
                assert(after.contains(r));
                assert forall|k: int| 0 <= k < after.len() implies (#[trigger] after[k]).id
                    == rows[k].id && after[k].module_id == rows[k].module_id && after[k].committer_id
                    == rows[k].committer_id && (k != i ==> after[k] == rows[k]) by {}
                assert forall|a: int, b: int| 0 <= a < b < after.len() implies (
                #[trigger] after[a]).id != (#[trigger] after[b]).id && !(after[a].module_id.0
                    == after[b].module_id.0 && after[a].committer_id.0
                    == after[b].committer_id.0) by {
                    assert(rows[a].id != rows[b].id);
                }
                assert forall|k: int| 0 <= k < after.len() implies committer::has(
                    store.committers@,
                    (#[trigger] after[k]).committer_id.0,
                    after[k].committer_id.1@,
                ) by {
                    assert(rows[k].committer_id == after[k].committer_id);
                }
                assert forall|m2: i64, n: Seq<char>, c: u32|
                    #[trigger] has_count(after, m2, n, c) <==> if m2 == *module_id && n == name@ {
                        c == *commits
                    } else {
                        has_count(rows, m2, n, c)
                    } by {
                    if has_count(after, m2, n, c) {
                        let w = choose|w: Model|
                            #[trigger] after.contains(w) && w.module_id.0 == m2
                                && w.committer_id.1@ == n && w.commits == c;
                        let k = choose|k: int| 0 <= k < after.len() && after[k] == w;
                        if k != i {
                            assert(rows[k] == w);
                            assert(rows.contains(w));
                        }
                    }
                    if has_count(rows, m2, n, c) && !(m2 == *module_id && n == name@) {
                        let w = choose|w: Model|
                            #[trigger] rows.contains(w) && w.module_id.0 == m2
                                && w.committer_id.1@ == n && w.commits == c;
                        let k = choose|k: int| 0 <= k < rows.len() && rows[k] == w;
                        assert(k != i);
                        assert(after[k] == w);
                        assert(after.contains(w));
                    }
                }
                assert forall|m2: i64, n: Seq<char>|
                    #[trigger] has_name(after, m2, n) <==> has_name(rows, m2, n) || (m2
                        == *module_id && n == name@) by {
                    if has_name(after, m2, n) {
                        let w = choose|w: Model|
                            #[trigger] after.contains(w) && w.module_id.0 == m2
                                && w.committer_id.1@ == n;
                        let k = choose|k: int| 0 <= k < after.len() && after[k] == w;
                        assert(rows.contains(rows[k]));
                    }
                    if has_name(rows, m2, n) {
                        let w = choose|w: Model|
                            #[trigger] rows.contains(w) && w.module_id.0 == m2
                                && w.committer_id.1@ == n;
                        let k = choose|k: int| 0 <= k < rows.len() && rows[k] == w;
                        assert(after.contains(after[k]));
                    }
                }
                if has_count(rows, *module_id, name@, *commits) {
                    let w = choose|w: Model|
                        #[trigger] rows.contains(w) && w.module_id.0 == *module_id
                            && w.committer_id.1@ == name@ && w.commits == *commits;
                    let k = choose|k: int| 0 <= k < rows.len() && rows[k] == w;
                    assert(k == i);
                }
            }
            r
        },
        None => {
            let committer = committer::add(store, name);
            let module = module::get_by_id(store, module_id).unwrap();
            let id = store.fresh_id();
            let row = Model {
                id,
                module_id: (module.id, module.technical_name.clone()),
                committer_id: (committer.id, committer.name),
                commits: *commits,
            };
            let r = row.duplicate();
            let ghost mid = *store;
            store.module_committers.push(row);
            proof {
                let rows = mid.module_committers@;
                let after = store.module_committers@;
                let k = choose|k: int|
                    0 <= k < mid.committers@.len() && mid.committers@[k] == committer;
                committer::lemma_has_row(mid.committers@, k);
                assert forall|i: int| 0 <= i < rows.len() implies !((#[trigger] rows[i]).module_id.0
                    == r.module_id.0 && rows[i].committer_id.0 == r.committer_id.0) by {
                    if rows[i].module_id.0 == r.module_id.0 && rows[i].committer_id.0
                        == r.committer_id.0 {
                        let x = choose|x: int|
                            0 <= x < mid.committers@.len() && (#[trigger] mid.committers@[x]).id
                                == rows[i].committer_id.0 && mid.committers@[x].name@
                                == rows[i].committer_id.1@;
                        if x < k {
                            assert(mid.committers@[x].id != mid.committers@[k].id);
                        } else if k < x {
                            assert(mid.committers@[k].id != mid.committers@[x].id);
                        }
                        assert(rows[i].committer_id.1@ == name@);
                        assert(rows.contains(rows[i]));
                        assert(has_name(old(store).module_committers@, *module_id, name@));
                    }
                }
                assert(after[after.len() - 1] == r);
                assert forall|e: Model| #[trigger] after.contains(e) <==> rows.contains(e) || e
                    == r by {
                    if after.contains(e) {
                        let i = choose|i: int| 0 <= i < after.len() && after[i] == e;
                        if i < rows.len() {
                            assert(rows[i] == e);
                        }
                    }
                    if rows.contains(e) {
                        let i = choose|i: int| 0 <= i < rows.len() && rows[i] == e;
                        assert(after[i] == e);
                    }
                }
                assert forall|m2: i64, n: Seq<char>, c: u32|
                    #[trigger] has_count(after, m2, n, c) <==> if m2 == *module_id && n == name@ {
                        c == *commits
                    } else {
                        has_count(rows, m2, n, c)
                    } by {
                    assert(after.contains(r));
                    assert(rows == old(store).module_committers@);
                    if has_count(after, m2, n, c) {
                        let w = choose|w: Model|
                            #[trigger] after.contains(w) && w.module_id.0 == m2
                                && w.committer_id.1@ == n && w.commits == c;
                        if w != r {
                            assert(rows.contains(w));
                            assert(has_name(rows, m2, n));
                        }
                    }
                    if has_count(rows, m2, n, c) {
                        let w = choose|w: Model|
                            #[trigger] rows.contains(w) && w.module_id.0 == m2
                                && w.committer_id.1@ == n && w.commits == c;
                        assert(after.contains(w));
                        assert(has_name(rows, m2, n));
                    }
                }
                assert forall|m2: i64, n: Seq<char>|
                    #[trigger] has_name(after, m2, n) <==> has_name(rows, m2, n) || (m2
                        == *module_id && n == name@) by {
                    assert(after.contains(r));
                    if has_name(after, m2, n) {
                        let w = choose|w: Model|
                            #[trigger] after.contains(w) && w.module_id.0 == m2
                                && w.committer_id.1@ == n;
                        if w != r {
                            assert(rows.contains(w));
                        }
                    }
                    if has_name(rows, m2, n) {
                        let w = choose|w: Model|
                            #[trigger] rows.contains(w) && w.module_id.0 == m2
                                && w.committer_id.1@ == n;
                        assert(after.contains(w));
                    }
                }
            }
            let version = odoo_version_u8_to_string(&module.version_odoo);
            let e = register_new_module_committer(
                store,
                name,
                *module_id,
                module.technical_name.as_str(),
                module.name.as_str(),
                version.as_str(),
                now,
            );
            proof {
                lemma_said_after_push(old(store).system_events@, old(store).system_events@, e);
                assert(said(store.system_events@, old(store).system_events@) =~= one_each(
                    EventKind::NewCommitter,
                    seq![name@],
                    ""@,
                    *module_id,
                ));
            }
            r
        },
    }
}

/// The committers of `v` as names and numbers of commits.
pub open spec fn counted(v: Seq<(String, u32)>) -> Seq<(Seq<char>, u32)> {
    Seq::new(v.len(), |i: int| (v[i].0@, v[i].1))
}

/// The names of the committers of `v`.
pub open spec fn counted_names(v: Seq<(String, u32)>) -> Seq<Seq<char>> {
    Seq::new(v.len(), |i: int| v[i].0@)
}

/// Sets, for each committer of `committers`, the number of commits made to
/// the module `module_id`, links the module to those it was not linked to,
/// and reports each new link.
pub fn sync(store: &mut Store, module_id: &i64, committers: &Vec<(String, u32)>, now: &str)
    requires
        old(store).wf(),
        old(store).last_id + 2 * committers@.len() <= i64::MAX,
        module::has_id(old(store).modules@, *module_id),
        distinct(counted_names(committers@)),
    ensures
        final(store).wf(),
        forall|m2: i64, n: Seq<char>, c: u32|
            #[trigger] has_count(final(store).module_committers@, m2, n, c) <==> if m2
                == *module_id && counted_names(committers@).contains(n) {
                counted(committers@).contains((n, c))
            } else {
                has_count(old(store).module_committers@, m2, n, c)
            },
        forall|m2: i64, n: Seq<char>|
            #[trigger] has_name(final(store).module_committers@, m2, n) <==> has_name(
                old(store).module_committers@,
                m2,
                n,
            ) || (m2 == *module_id && counted_names(committers@).contains(n)),
        extends(final(store).system_events@, old(store).system_events@),
        dated(final(store).system_events@, old(store).system_events@, now@),
        said(final(store).system_events@, old(store).system_events@) == one_each(
            EventKind::NewCommitter,
            minus(
                counted_names(committers@),
                names_of_module(old(store).module_committers@, *module_id),
            ),
            ""@,
            *module_id,
        ),
        (forall|i: int|
            0 <= i < committers@.len() ==> has_count(
                old(store).module_committers@,
                *module_id,
                (#[trigger] committers@[i]).0@,
                committers@[i].1,
            )) ==> *final(store) == *old(store),
        old(store).last_id <= final(store).last_id <= old(store).last_id + 2 * committers@.len(),
        *final(store) == (Store {
            committers: final(store).committers,
            module_committers: final(store).module_committers,
            system_events: final(store).system_events,
            last_id: final(store).last_id,
            ..*old(store)
        }),
{
    let ghost names = counted_names(committers@);
    let ghost counts = counted(committers@);
    let ghost had = names_of_module(old(store).module_committers@, *module_id);
    let mut j: usize = 0;
    proof {
        lemma_said_nothing(store.system_events@);
        assert(names.take(0) =~= Seq::<Seq<char>>::empty());
        assert(said(store.system_events@, old(store).system_events@) =~= one_each(
            EventKind::NewCommitter,
            minus(names.take(0), had),
            ""@,
            *module_id,
        ));
    }
    while j < committers.len()
        invariant
            j <= committers.len(),
            names == counted_names(committers@),
            counts == counted(committers@),
            had == names_of_module(old(store).module_committers@, *module_id),
            distinct(names),
            store.wf(),
            old(store).last_id + 2 * committers@.len() <= i64::MAX,
            old(store).last_id <= store.last_id <= old(store).last_id + 2 * j,
            module::has_id(store.modules@, *module_id),
            forall|m2: i64, n: Seq<char>, c: u32|
                #[trigger] has_count(store.module_committers@, m2, n, c) <==> if m2 == *module_id
                    && names.take(j as int).contains(n) {
                    counts.take(j as int).contains((n, c))
                } else {
                    has_count(old(store).module_committers@, m2, n, c)
                },
            forall|m2: i64, n: Seq<char>|
                #[trigger] has_name(store.module_committers@, m2, n) <==> has_name(
                    old(store).module_committers@,
                    m2,
                    n,
                ) || (m2 == *module_id && names.take(j as int).contains(n)),
            extends(store.system_events@, old(store).system_events@),
            dated(store.system_events@, old(store).system_events@, now@),
            said(store.system_events@, old(store).system_events@) == one_each(
                EventKind::NewCommitter,
                minus(names.take(j as int), had),
                ""@,
                *module_id,
            ),
            (forall|i: int|
                0 <= i < j ==> has_count(
                    old(store).module_committers@,
                    *module_id,
                    (#[trigger] committers@[i]).0@,
                    committers@[i].1,
                )) ==> *store == *old(store),
            *store == (Store {
                committers: store.committers,
                module_committers: store.module_committers,
                system_events: store.system_events,
                last_id: store.last_id,
                ..*old(store)
            }),
        decreases committers.len() - j,
    {
        let ghost before = *store;
        let ghost name = names[j as int];
        let ghost count = committers@[j as int].1;
        assert(name == committers@[j as int].0@);
        proof {
            // the name has not been met before
            if names.take(j as int).contains(name) {
                let k = choose|k: int| 0 <= k < j && names.take(j as int)[k] == name;
                assert(names[k] == names[j as int]);
            }
            lemma_names_of_module(old(store).module_committers@, *module_id, name);
        }
        let r = self::add(store, module_id, committers[j].0.as_str(), &committers[j].1, now);
        proof {
            assert(names.take(j + 1).drop_last() =~= names.take(j as int));
            assert(names.take(j + 1).last() == name);
            lemma_said_in_turn(
                old(store).system_events@,
                before.system_events@,
                store.system_events@,
            );
            if has_name(before.module_committers@, *module_id, name) {
                assert(said(store.system_events@, before.system_events@) =~= Seq::<
                    Signature,
                >::empty()) by {
                    lemma_said_nothing(before.system_events@);
                }
            }
            assert(said(store.system_events@, old(store).system_events@) =~= one_each(
                EventKind::NewCommitter,
                minus(names.take(j + 1), had),
                ""@,
                *module_id,
            ));
            assert forall|m2: i64, n: Seq<char>|
                #[trigger] has_name(store.module_committers@, m2, n) <==> has_name(
                    old(store).module_committers@,
                    m2,
                    n,
                ) || (m2 == *module_id && names.take(j + 1).contains(n)) by {
                lemma_take_contains_step(names, j as int, n);
                assert(has_name(before.module_committers@, m2, n) <==> has_name(
                    old(store).module_committers@,
                    m2,
                    n,
                ) || (m2 == *module_id && names.take(j as int).contains(n)));
            }
            assert forall|m2: i64, n: Seq<char>, c: u32|
                #[trigger] has_count(store.module_committers@, m2, n, c) <==> if m2 == *module_id
                    && names.take(j + 1).contains(n) {
                    counts.take(j + 1).contains((n, c))
                } else {
                    has_count(old(store).module_committers@, m2, n, c)
                } by {
                lemma_take_contains_step(names, j as int, n);
                assert(has_count(before.module_committers@, m2, n, c) <==> if m2 == *module_id
                    && names.take(j as int).contains(n) {
                    counts.take(j as int).contains((n, c))
                } else {
                    has_count(old(store).module_committers@, m2, n, c)
                });
                let s = counts.take(j as int);
                let t = counts.take(j + 1);
                assert(t[j as int] == (name, count));
                if t.contains((n, c)) {
                    let k = choose|k: int| 0 <= k < t.len() && t[k] == (n, c);
                    if k < j {
                        assert(s[k] == (n, c));
                        assert(names[k] == n);
                    }
                }
                if s.contains((n, c)) {
                    let k = choose|k: int| 0 <= k < s.len() && s[k] == (n, c);
                    assert(t[k] == (n, c));
                    assert(names[k] == n);
                    assert(names.take(j as int)[k] == n);
                }
            }
        }
        j += 1;
    }
    proof {
        assert(names.take(committers@.len() as int) =~= names);
        assert(counts.take(committers@.len() as int) =~= counts);
    }
}

/// Takes every link of the module `module_id` away, and says how many rows
/// went.
pub fn delete_by_module_id(store: &mut Store, module_id: &i64) -> (r: usize)
    requires
        old(store).wf(),
    ensures
        final(store).wf(),
        forall|m: Model|
            final(store).module_committers@.contains(m) <==> old(store).module_committers@.contains(m)
                && m.module_id.0 != *module_id,
        old(store).module_committers@.len() == final(store).module_committers@.len() + r,
        *final(store) == (Store { module_committers: final(store).module_committers, ..*old(store) }),
{
    let mut i: usize = 0;
    let mut r: usize = 0;
    while i < store.module_committers.len()
        invariant
            i <= store.module_committers.len(),
            store.wf(),
            *store == (Store { module_committers: store.module_committers, ..*old(store) }),
            old(store).module_committers@.len() == store.module_committers@.len() + r,
            forall|k: int| 0 <= k < i ==> (#[trigger] store.module_committers@[k]).module_id.0 != *module_id,
            forall|m: Model| store.module_committers@.contains(m) ==> old(store).module_committers@.contains(m),
            forall|m: Model|
                old(store).module_committers@.contains(m) && m.module_id.0 != *module_id
                    ==> store.module_committers@.contains(m),
        decreases store.module_committers.len() - i,
    {
        if store.module_committers[i].module_id.0 == *module_id {
            let ghost rows = store.module_committers@;
            proof {
                lemma_after_remove(rows, i as int, store.last_id, store.committers@);
            }
            let gone = store.module_committers.remove(i);
            proof {
                assert(old(store).module_committers.len() <= usize::MAX);
                rows.remove_ensures(i as int);
                assert forall|m: Model|
                    old(store).module_committers@.contains(m) && m.module_id.0
                        != *module_id implies store.module_committers@.contains(m) by {
                    let k = choose|k: int| 0 <= k < rows.len() && rows[k] == m;
                    assert(k != i);
                }
            }
            r += 1;
        } else {
            i += 1;
        }
    }
    proof {
        assert forall|m: Model| store.module_committers@.contains(m) implies m.module_id.0
            != *module_id by {
            let k = choose|k: int|
                0 <= k < store.module_committers@.len() && store.module_committers@[k] == m;
        }
    }
    r
}

} // verus!
