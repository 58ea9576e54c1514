//! The authors of each module.

use crate::models::author;
use crate::models::module;
use crate::models::store::Store;
use crate::models::system_event::{
    dated,     extends, lemma_said_after_push, lemma_said_in_turn, lemma_said_nothing, one_each,
    register_delete_module_author, register_new_module_author, said, EventKind, Signature,
};
use crate::names::{
    difference, first_seen, lemma_first_seen_step, lemma_minus_contains, lemma_minus_len,
    lemma_take_contains_step, minus,
};
use crate::text::{decimal_string, decimal_text, same_text, texts};
use crate::version::odoo_version_u8_to_string;
use vstd::prelude::*;

verus! {

/// One author of one module. `module_id` is the module's identity and a copy
/// of its technical name, `author_id` the author's identity and a copy of the
/// author's name.
#[derive(Debug)]
pub struct Model {
    pub id: i64,
    pub module_id: (i64, String),
    pub author_id: (i64, String),
}

/// How many modules an author has.
#[derive(Debug)]
pub struct TopAuthorJSON {
    pub author_id: String,
    pub count: String,
}

impl Model {
    /// A copy of the row.
    pub fn duplicate(&self) -> (r: Model)
        ensures
            r == *self,
    {
        Model {
            id: self.id,
            module_id: (self.module_id.0, self.module_id.1.clone()),
            author_id: (self.author_id.0, self.author_id.1.clone()),
        }
    }
}

/// Identities lie in `1..=last_id`.
pub open spec fn ids_below(rows: Seq<Model>, last_id: i64) -> bool {
    forall|i: int| 0 <= i < rows.len() ==> 0 < (#[trigger] rows[i]).id <= last_id
}

/// No identity occurs twice, and no author twice on one module.
pub open spec fn well_keyed(rows: Seq<Model>) -> bool {
    &&& forall|i: int, j: int|
        0 <= i < j < rows.len() ==> (#[trigger] rows[i]).id != (#[trigger] rows[j]).id
    &&& forall|i: int, j: int|
        0 <= i < j < rows.len() ==> !((#[trigger] rows[i]).module_id.0 == (
        #[trigger] rows[j]).module_id.0 && rows[i].author_id.0 == rows[j].author_id.0)
}

/// Every row's author is in `authors`, under the name that the row holds.
pub open spec fn linked(rows: Seq<Model>, authors: Seq<author::Model>) -> bool {
    forall|i: int|
        0 <= i < rows.len() ==> author::has(
            authors,
            (#[trigger] rows[i]).author_id.0,
            rows[i].author_id.1@,
        )
}

/// Whether the module `module_id` has an author named `name`.
pub open spec fn has_name(rows: Seq<Model>, module_id: i64, name: Seq<char>) -> bool {
    exists|e: Model|
        #[trigger] rows.contains(e) && e.module_id.0 == module_id && e.author_id.1@ == name
}

/// The rows stay linked after one more row in `authors`.
pub proof fn lemma_linked_after_push(rows: Seq<Model>, authors: Seq<author::Model>, r: author::Model)
    requires
        linked(rows, authors),
    ensures
        linked(rows, authors.push(r)),
{
    assert forall|i: int| 0 <= i < rows.len() implies author::has(
        authors.push(r),
        (#[trigger] rows[i]).author_id.0,
        rows[i].author_id.1@,
    ) by {
        author::lemma_has_after_push(authors, r, rows[i].author_id.0, rows[i].author_id.1@);
    }
}

/// The rows stay well keyed and below `last_id` without the row at `i`, and
/// linked to `authors`.
pub proof fn lemma_after_remove(
    rows: Seq<Model>,
    i: int,
    last_id: i64,
    authors: Seq<author::Model>,
)
    requires
        0 <= i < rows.len(),
        well_keyed(rows),
        ids_below(rows, last_id),
        linked(rows, authors),
    ensures
        well_keyed(rows.remove(i)),
        ids_below(rows.remove(i), last_id),
        linked(rows.remove(i), authors),
        forall|r: Model| rows.remove(i).contains(r) ==> rows.contains(r),
        forall|k: int| 0 <= k < rows.len() && k != i ==> rows.remove(i).contains(#[trigger] rows[k]),
{
    let s = rows.remove(i);
    rows.remove_ensures(i);
    assert forall|k: int| 0 <= k < s.len() implies #[trigger] s[k] == rows[if k < i {
        k
    } else {
        k + 1
    }] by {}
    assert forall|k: int| 0 <= k < rows.len() && k != i implies s.contains(#[trigger] rows[k]) by {
        if k < i {
            assert(s[k] == rows[k]);
        } else {
            assert(s[k - 1] == rows[k]);
        }
    }
    assert forall|a: int, b: int| 0 <= a < b < s.len() implies (#[trigger] s[a]).id != (
    #[trigger] s[b]).id && !(s[a].module_id.0 == s[b].module_id.0 && s[a].author_id.0
        == s[b].author_id.0) by {
        let a2 = if a < i {
            a
        } else {
            a + 1
        };
        let b2 = if b < i {
            b
        } else {
            b + 1
        };
        assert(s[a] == rows[a2]);
        assert(s[b] == rows[b2]);
    }
    assert forall|k: int| 0 <= k < s.len() implies author::has(
        authors,
        (#[trigger] s[k]).author_id.0,
        s[k].author_id.1@,
    ) by {
        let k2 = if k < i {
            k
        } else {
            k + 1
        };
        assert(s[k] == rows[k2]);
    }
}

/// The row that links the module `module_id` to the author `author_id`.
pub fn get_by_id(store: &Store, module_id: &i64, author_id: &i64) -> (r: Option<Model>)
    ensures
        r is Some <==> exists|i: int|
            0 <= i < store.module_authors@.len() && (#[trigger] store.module_authors@[i]).module_id.0
                == *module_id && store.module_authors@[i].author_id.0 == *author_id,
        r matches Some(m) ==> store.module_authors@.contains(m) && m.module_id.0 == *module_id
            && m.author_id.0 == *author_id,
{
    let mut i: usize = 0;
    while i < store.module_authors.len()
        invariant
            i <= store.module_authors.len(),
            forall|k: int|
                0 <= k < i ==> !((#[trigger] store.module_authors@[k]).module_id.0 == *module_id
                    && store.module_authors@[k].author_id.0 == *author_id),
        decreases store.module_authors.len() - i,
    {
        if store.module_authors[i].module_id.0 == *module_id && store.module_authors[i].author_id.0
            == *author_id {
            return Some(store.module_authors[i].duplicate());
        }
        i += 1;
    }
    None
}

/// The row that links the module `module_id` to the author named `name`.
pub fn get_by_name(store: &Store, module_id: &i64, name: &str) -> (r: Option<Model>)
    ensures
        r is Some <==> has_name(store.module_authors@, *module_id, name@),
        r matches Some(m) ==> store.module_authors@.contains(m) && m.module_id.0 == *module_id
            && m.author_id.1@ == name@,
{
    let mut i: usize = 0;
    while i < store.module_authors.len()
        invariant
            i <= store.module_authors.len(),
            forall|k: int|
                0 <= k < i ==> !((#[trigger] store.module_authors@[k]).module_id.0 == *module_id
                    && store.module_authors@[k].author_id.1@ == name@),
        decreases store.module_authors.len() - i,
    {
        if store.module_authors[i].module_id.0 == *module_id && same_text(
            store.module_authors[i].author_id.1.as_str(),
            name,
        ) {
            assert(store.module_authors@.contains(store.module_authors@[i as int]));
            return Some(store.module_authors[i].duplicate());
        }
        i += 1;
    }
    None
}

/// The rows of `rows` that belong to the module `module_id`, in order.
pub open spec fn of_module(rows: Seq<Model>, module_id: i64) -> Seq<Model>
    decreases rows.len(),
{
    if rows.len() == 0 {
        Seq::<Model>::empty()
    } else {
        let init = of_module(rows.drop_last(), module_id);
        if rows.last().module_id.0 == module_id {
            init.push(rows.last())
        } else {
            init
        }
    }
}

/// The names of the authors of the module `module_id`, in the order of the
/// rows.
pub open spec fn names_of_module(rows: Seq<Model>, module_id: i64) -> Seq<Seq<char>>
    decreases rows.len(),
{
    if rows.len() == 0 {
        Seq::<Seq<char>>::empty()
    } else {
        let init = names_of_module(rows.drop_last(), module_id);
        if rows.last().module_id.0 == module_id {
            init.push(rows.last().author_id.1@)
        } else {
            init
        }
    }
}

/// A name is among the names of a module's authors where a row links the
/// module to it.
pub proof fn lemma_names_of_module(rows: Seq<Model>, module_id: i64, name: Seq<char>)
    ensures
        names_of_module(rows, module_id).contains(name) <==> has_name(rows, module_id, name),
    decreases rows.len(),
{
    if rows.len() > 0 {
        let init = rows.drop_last();
        lemma_names_of_module(init, module_id, name);
        let before = names_of_module(init, module_id);
        let last = rows.last();
        if has_name(init, module_id, name) {
            let e = choose|e: Model|
                #[trigger] init.contains(e) && e.module_id.0 == module_id && e.author_id.1@
                    == name;
            let i = choose|i: int| 0 <= i < init.len() && init[i] == e;
            assert(rows[i] == e);
            assert(rows.contains(e));
        }
        if has_name(rows, module_id, name) {
            let e = choose|e: Model|
                #[trigger] rows.contains(e) && e.module_id.0 == module_id && e.author_id.1@
                    == name;
            let i = choose|i: int| 0 <= i < rows.len() && rows[i] == e;
            if i < rows.len() - 1 {
                assert(init[i] == e);
                assert(init.contains(e));
            }
        }
        if last.module_id.0 == module_id {
            let after = before.push(last.author_id.1@);
            assert(after[before.len() as int] == last.author_id.1@);
            assert(rows[rows.len() - 1] == last);
            assert(rows.contains(last));
            if before.contains(name) {
                let i = choose|i: int| 0 <= i < before.len() && before[i] == name;
                assert(after[i] == name);
            }
            if after.contains(name) {
                let i = choose|i: int| 0 <= i < after.len() && after[i] == name;
                if i < before.len() {
                    assert(before[i] == name);
                }
            }
        }
    }
}

/// The rows of the module `module_id`.
pub fn get_by_module_id(store: &Store, module_id: &i64) -> (r: Vec<Model>)
    ensures
        r@ == of_module(store.module_authors@, *module_id),
{
    let mut r: Vec<Model> = Vec::new();
    let mut i: usize = 0;
    proof {
        assert(store.module_authors@.take(0) =~= Seq::<Model>::empty());
    }
    while i < store.module_authors.len()
        invariant
            i <= store.module_authors.len(),
            r@ == of_module(store.module_authors@.take(i as int), *module_id),
        decreases store.module_authors.len() - i,
    {
        proof {
            assert(store.module_authors@.take(i + 1).drop_last() =~= store.module_authors@.take(
                i as int,
            ));
        }
        if store.module_authors[i].module_id.0 == *module_id {
            r.push(store.module_authors[i].duplicate());
        }
        i += 1;
    }
    proof {
        assert(store.module_authors@.take(store.module_authors@.len() as int)
            =~= store.module_authors@);
    }
    r
}

/// The names of the authors of the module `module_id`.
pub fn get_names_by_module_id(store: &Store, module_id: &i64) -> (r: Vec<String>)
    ensures
        texts(r@) == names_of_module(store.module_authors@, *module_id),
{
    let mut r: Vec<String> = Vec::new();
    let mut i: usize = 0;
    proof {
        assert(store.module_authors@.take(0) =~= Seq::<Model>::empty());
        assert(texts(r@) =~= Seq::<Seq<char>>::empty());
    }
    while i < store.module_authors.len()
        invariant
            i <= store.module_authors.len(),
            texts(r@) == names_of_module(store.module_authors@.take(i as int), *module_id),
        decreases store.module_authors.len() - i,
    {
        proof {
            assert(store.module_authors@.take(i + 1).drop_last() =~= store.module_authors@.take(
                i as int,
            ));
        }
        if store.module_authors[i].module_id.0 == *module_id {
            let ghost before = r@;
            r.push(store.module_authors[i].author_id.1.clone());
            assert(texts(r@) =~= texts(before).push(store.module_authors@[i as int].author_id.1@));
        }
        i += 1;
    }
    proof {
        assert(store.module_authors@.take(store.module_authors@.len() as int)
            =~= store.module_authors@);
    }
    r
}

/// Links the module `module_id` to the author named `name`, where it is not
/// linked to that name yet; the author is entered first where the catalog
/// has none of that name, and the link is reported.
pub fn add(store: &mut Store, module_id: &i64, name: &str, now: &str) -> (r: Model)
    requires
        old(store).wf(),
        old(store).last_id < i64::MAX - 1,
        module::has_id(old(store).modules@, *module_id),
    ensures
        final(store).wf(),
        r.module_id.0 == *module_id,
        r.author_id.1@ == name@,
        final(store).module_authors@.contains(r),
        extends(final(store).system_events@, old(store).system_events@),
        dated(final(store).system_events@, old(store).system_events@, now@),
        has_name(old(store).module_authors@, *module_id, name@) ==> *final(store) == *old(store),
        !has_name(old(store).module_authors@, *module_id, name@) ==> {
            &&& final(store).module_authors@ == old(store).module_authors@.push(r)
            &&& said(final(store).system_events@, old(store).system_events@) == one_each(
                EventKind::NewAuthor,
                seq![name@],
                ""@,
                *module_id,
            )
            &&& final(store).system_events@.last().date@ == now@
            &&& old(store).last_id < final(store).last_id <= old(store).last_id + 2
            &&& *final(store) == (Store {
                authors: final(store).authors,
                module_authors: final(store).module_authors,
                system_events: final(store).system_events,
                last_id: final(store).last_id,
                ..*old(store)
            })
        },
{
    proof {
        lemma_said_nothing(store.system_events@);
    }
    match get_by_name(store, module_id, name) {
        Some(found) => found,
        None => {
            let author = author::add(store, name);
            let module = module::get_by_id(store, module_id).unwrap();
            let id = store.fresh_id();
            let row = Model {
                id,
                module_id: (module.id, module.technical_name.clone()),
                author_id: (author.id, author.name),
            };
            let r = row.duplicate();
            let ghost mid = *store;
            store.module_authors.push(row);
            proof {
                let rows = mid.module_authors@;
                let k = choose|k: int| 0 <= k < mid.authors@.len() && mid.authors@[k] == author;
                author::lemma_has_row(mid.authors@, k);
                assert forall|i: int| 0 <= i < rows.len() implies !((#[trigger] rows[i]).module_id.0
                    == r.module_id.0 && rows[i].author_id.0 == r.author_id.0) by {
                    if rows[i].module_id.0 == r.module_id.0 && rows[i].author_id.0
                        == r.author_id.0 {
                        let x = choose|x: int|
                            0 <= x < mid.authors@.len() && (#[trigger] mid.authors@[x]).id
                                == rows[i].author_id.0 && mid.authors@[x].name@
                                == rows[i].author_id.1@;
                        if x < k {
                            assert(mid.authors@[x].id != mid.authors@[k].id);
                        } else if k < x {
                            assert(mid.authors@[k].id != mid.authors@[x].id);
                        }
                        assert(rows[i].author_id.1@ == name@);
                        assert(rows.contains(rows[i]));
                        assert(has_name(old(store).module_authors@, *module_id, name@));
                    }
                }
                assert(store.module_authors@[store.module_authors@.len() - 1] == r);
            }
            let version = odoo_version_u8_to_string(&module.version_odoo);
            let e = register_new_module_author(
                store,
                name,
                *module_id,
                module.technical_name.as_str(),
                module.name.as_str(),
                version.as_str(),
                now,
            );
            proof {
                lemma_said_after_push(old(store).system_events@, old(store).system_events@, e);
                assert(said(store.system_events@, old(store).system_events@) =~= one_each(
                    EventKind::NewAuthor,
                    seq![name@],
                    ""@,
                    *module_id,
                ));
            }
            r
        },
    }
}

/// Takes the link between the module `module_id` and the author `author_id`
/// away, and says how many rows went.
pub fn delete_by_module_id_author_id(store: &mut Store, module_id: &i64, author_id: &i64) -> (r:
    usize)
    requires
        old(store).wf(),
    ensures
        final(store).wf(),
        r <= 1,
        forall|m: Model|
            final(store).module_authors@.contains(m) <==> old(store).module_authors@.contains(m)
                && !(m.module_id.0 == *module_id && m.author_id.0 == *author_id),
        old(store).module_authors@.len() == final(store).module_authors@.len() + r,
        *final(store) == (Store { module_authors: final(store).module_authors, ..*old(store) }),
{
    let mut i: usize = 0;
    while i < store.module_authors.len()
        invariant
            i <= store.module_authors.len(),
            *store == *old(store),
            store.wf(),
            forall|k: int|
                0 <= k < i ==> !((#[trigger] store.module_authors@[k]).module_id.0 == *module_id
                    && store.module_authors@[k].author_id.0 == *author_id),
        decreases store.module_authors.len() - i,
    {
        if store.module_authors[i].module_id.0 == *module_id && store.module_authors[i].author_id.0
            == *author_id {
            proof {
                lemma_after_remove(
                    store.module_authors@,
                    i as int,
                    store.last_id,
                    store.authors@,
                );
            }
            let gone = store.module_authors.remove(i);
            proof {
                let rows = old(store).module_authors@;
                assert forall|m: Model|
                    store.module_authors@.contains(m) <==> rows.contains(m) && !(m.module_id.0
                        == *module_id && m.author_id.0 == *author_id) by {
                    if store.module_authors@.contains(m) {
                        let k = choose|k: int| 0 <= k < rows.len() && rows[k] == m;
                        if m.module_id.0 == *module_id && m.author_id.0 == *author_id {
                            let j = choose|j: int|
                                0 <= j < store.module_authors@.len() && store.module_authors@[j]
                                    == m;
                            rows.remove_ensures(i as int);
                            let j2 = if j < i {
                                j
                            } else {
                                j + 1
                            };
                            assert(rows[j2] == m);
                            if j2 < i {
                                assert(rows[j2].module_id.0 == rows[i as int].module_id.0);
                            } else {
                                assert(rows[i as int].module_id.0 == rows[j2].module_id.0);
                            }
                        }
                    }
                    if rows.contains(m) && !(m.module_id.0 == *module_id && m.author_id.0
                        == *author_id) {
                        let k = choose|k: int| 0 <= k < rows.len() && rows[k] == m;
                        assert(k != i);
                    }
                }
            }
            return 1;
        }
        i += 1;
    }
    proof {
        assert forall|m: Model| store.module_authors@.contains(m) implies !(m.module_id.0
            == *module_id && m.author_id.0 == *author_id) by {
            let k = choose|k: int|
                0 <= k < store.module_authors@.len() && store.module_authors@[k] == m;
        }
    }
    0
}

/// Takes every link of the module `module_id` away, and says how many rows
/// went.
pub fn delete_by_module_id(store: &mut Store, module_id: &i64) -> (r: usize)
    requires
        old(store).wf(),
    ensures
        final(store).wf(),
        forall|m: Model|
            final(store).module_authors@.contains(m) <==> old(store).module_authors@.contains(m)
                && m.module_id.0 != *module_id,
        old(store).module_authors@.len() == final(store).module_authors@.len() + r,
        *final(store) == (Store { module_authors: final(store).module_authors, ..*old(store) }),
{
    let mut i: usize = 0;
    let mut r: usize = 0;
    while i < store.module_authors.len()
        invariant
            i <= store.module_authors.len(),
            store.wf(),
            *store == (Store { module_authors: store.module_authors, ..*old(store) }),
            old(store).module_authors@.len() == store.module_authors@.len() + r,
            forall|k: int| 0 <= k < i ==> (#[trigger] store.module_authors@[k]).module_id.0 != *module_id,
            forall|m: Model| store.module_authors@.contains(m) ==> old(store).module_authors@.contains(m),
            forall|m: Model|
                old(store).module_authors@.contains(m) && m.module_id.0 != *module_id
                    ==> store.module_authors@.contains(m),
        decreases store.module_authors.len() - i,
    {
        if store.module_authors[i].module_id.0 == *module_id {
            let ghost rows = store.module_authors@;
            proof {
                lemma_after_remove(rows, i as int, store.last_id, store.authors@);
            }
            let gone = store.module_authors.remove(i);
            proof {
                assert(old(store).module_authors.len() <= usize::MAX);
                rows.remove_ensures(i as int);
                assert forall|m: Model|
                    old(store).module_authors@.contains(m) && m.module_id.0
                        != *module_id implies store.module_authors@.contains(m) by {
                    let k = choose|k: int| 0 <= k < rows.len() && rows[k] == m;
                    assert(k != i);
                }
            }
            r += 1;
        } else {
            i += 1;
        }
    }
    proof {
        assert forall|m: Model| store.module_authors@.contains(m) implies m.module_id.0
            != *module_id by {
            let k = choose|k: int|
                0 <= k < store.module_authors@.len() && store.module_authors@[k] == m;
        }
    }
    r
}

/// In a well-formed catalog a row leads to the author `a` where it holds
/// the name of `a`.
pub proof fn lemma_row_of(store: Store, e: Model, a: author::Model)
    requires
        store.wf(),
        store.module_authors@.contains(e),
        store.authors@.contains(a),
    ensures
        e.author_id.0 == a.id <==> e.author_id.1@ == a.name@,
{
    let authors = store.authors@;
    let i = choose|i: int| 0 <= i < store.module_authors@.len() && store.module_authors@[i] == e;
    assert(author::has(authors, store.module_authors@[i].author_id.0, e.author_id.1@));
    let x = choose|x: int|
        0 <= x < authors.len() && (#[trigger] authors[x]).id == e.author_id.0 && authors[x].name@
            == e.author_id.1@;
    let y = choose|y: int| 0 <= y < authors.len() && authors[y] == a;
    if x < y {
        assert(authors[x].id != authors[y].id);
        assert(authors[x].name@ != authors[y].name@);
    } else if y < x {
        assert(authors[y].id != authors[x].id);
        assert(authors[y].name@ != authors[x].name@);
    }
}

/// What is said where a module's authors are brought in line with `wanted`,
/// the module having had the authors `had`: each name that is no longer
/// wanted is reported as lost, in the order of `had`, then each new name as
/// gained, once, in the order of `wanted`.
pub open spec fn said_by_sync(had: Seq<Seq<char>>, wanted: Seq<Seq<char>>, module_id: i64) -> Seq<
    Signature,
> {
    one_each(EventKind::DeletedAuthor, minus(had, wanted), ""@, module_id) + one_each(
        EventKind::NewAuthor,
        first_seen(minus(wanted, had)),
        ""@,
        module_id,
    )
}

/// Takes the links between the module `module_id` and the authors named in
/// `names` away, and reports each.
fn unlink(store: &mut Store, module: &module::Model, names: &Vec<String>, now: &str)
    requires
        old(store).wf(),
        forall|k: int|
            0 <= k < names@.len() ==> has_name(
                old(store).module_authors@,
                module.id,
                #[trigger] texts(names@)[k],
            ),
    ensures
        final(store).wf(),
        forall|m2: i64, n: Seq<char>|
            #[trigger] has_name(final(store).module_authors@, m2, n) <==> has_name(
                old(store).module_authors@,
                m2,
                n,
            ) && !(m2 == module.id && texts(names@).contains(n)),
        extends(final(store).system_events@, old(store).system_events@),
        dated(final(store).system_events@, old(store).system_events@, now@),
        said(final(store).system_events@, old(store).system_events@) == one_each(
            EventKind::DeletedAuthor,
            texts(names@),
            ""@,
            module.id,
        ),
        names@.len() == 0 ==> *final(store) == *old(store),
        *final(store) == (Store {
            module_authors: final(store).module_authors,
            system_events: final(store).system_events,
            ..*old(store)
        }),
{
    let version = odoo_version_u8_to_string(&module.version_odoo);
    let ghost all = texts(names@);
    let mut j: usize = 0;
    proof {
        lemma_said_nothing(store.system_events@);
        assert(all.take(0) =~= Seq::<Seq<char>>::empty());
        assert(said(store.system_events@, old(store).system_events@) =~= one_each(
            EventKind::DeletedAuthor,
            all.take(0),
            ""@,
            module.id,
        ));
    }
    while j < names.len()
        invariant
            j <= names.len(),
            all == texts(names@),
            store.wf(),
            old(store).wf(),
            forall|k: int|
                0 <= k < names@.len() ==> has_name(
                    old(store).module_authors@,
                    module.id,
                    #[trigger] all[k],
                ),
            forall|m2: i64, n: Seq<char>|
                #[trigger] has_name(store.module_authors@, m2, n) <==> has_name(
                    old(store).module_authors@,
                    m2,
                    n,
                ) && !(m2 == module.id && all.take(j as int).contains(n)),
            extends(store.system_events@, old(store).system_events@),
            dated(store.system_events@, old(store).system_events@, now@),
            said(store.system_events@, old(store).system_events@) == one_each(
                EventKind::DeletedAuthor,
                all.take(j as int),
                ""@,
                module.id,
            ),
            j == 0 ==> *store == *old(store),
            *store == (Store {
                module_authors: store.module_authors,
                system_events: store.system_events,
                ..*old(store)
            }),
        decreases names.len() - j,
    {
        let ghost before = *store;
        let ghost name = all[j as int];
        assert(name == names@[j as int]@);
        proof {
            // the author is in the catalog: the module was linked to the name
            let e = choose|e: Model|
                #[trigger] old(store).module_authors@.contains(e) && e.module_id.0 == module.id
                    && e.author_id.1@ == name;
            let i = choose|i: int|
                0 <= i < old(store).module_authors@.len() && old(store).module_authors@[i] == e;
            assert(author::has(
                old(store).authors@,
                old(store).module_authors@[i].author_id.0,
                e.author_id.1@,
            ));
            let x = choose|x: int|
                0 <= x < store.authors@.len() && (#[trigger] store.authors@[x]).id
                    == e.author_id.0 && store.authors@[x].name@ == e.author_id.1@;
            assert(author::has_name(store.authors@, name));
        }
        match author::get_by_name(store, names[j].as_str()) {
            Some(a) => {
                proof {
                    assert forall|e: Model| #[trigger]
                        store.module_authors@.contains(e) implies (e.author_id.0 == a.id
                        <==> e.author_id.1@ == name) by {
                        lemma_row_of(*store, e, a);
                    }
                }
                let gone = delete_by_module_id_author_id(store, &module.id, &a.id);
                let e = register_delete_module_author(
                    store,
                    names[j].as_str(),
                    module.id,
                    module.technical_name.as_str(),
                    module.name.as_str(),
                    version.as_str(),
                    now,
                );
                proof {
                    lemma_said_after_push(old(store).system_events@, before.system_events@, e);
                    assert(said(store.system_events@, old(store).system_events@) =~= one_each(
                        EventKind::DeletedAuthor,
                        all.take(j + 1),
                        ""@,
                        module.id,
                    ));
                    assert forall|m2: i64, n: Seq<char>|
                        #[trigger] has_name(store.module_authors@, m2, n) <==> has_name(
                            old(store).module_authors@,
                            m2,
                            n,
                        ) && !(m2 == module.id && all.take(j + 1).contains(n)) by {
                        lemma_take_contains_step(all, j as int, n);
                        assert(has_name(before.module_authors@, m2, n) <==> has_name(
                            old(store).module_authors@,
                            m2,
                            n,
                        ) && !(m2 == module.id && all.take(j as int).contains(n)));
                        if has_name(before.module_authors@, m2, n) && !(m2 == module.id && n
                            == name) {
                            let w = choose|w: Model|
                                #[trigger] before.module_authors@.contains(w) && w.module_id.0
                                    == m2 && w.author_id.1@ == n;
                            assert(store.module_authors@.contains(w));
                        }
                    }
                }
            },
            None => {
                assert(false);
            },
        }
        j += 1;
    }
    proof {
        assert(all.take(names@.len() as int) =~= all);
    }
}

/// Links the module `module_id` to each author named in `names`, and
/// reports each new link.
fn link(store: &mut Store, module_id: &i64, names: &Vec<String>, now: &str)
    requires
        old(store).wf(),
        old(store).last_id + 2 * names@.len() <= i64::MAX,
        module::has_id(old(store).modules@, *module_id),
        forall|k: int|
            0 <= k < names@.len() ==> !has_name(
                old(store).module_authors@,
                *module_id,
                #[trigger] texts(names@)[k],
            ),
    ensures
        final(store).wf(),
        forall|m2: i64, n: Seq<char>|
            #[trigger] has_name(final(store).module_authors@, m2, n) <==> has_name(
                old(store).module_authors@,
                m2,
                n,
            ) || (m2 == *module_id && texts(names@).contains(n)),
        extends(final(store).system_events@, old(store).system_events@),
        dated(final(store).system_events@, old(store).system_events@, now@),
        said(final(store).system_events@, old(store).system_events@) == one_each(
            EventKind::NewAuthor,
            first_seen(texts(names@)),
            ""@,
            *module_id,
        ),
        names@.len() == 0 ==> *final(store) == *old(store),
        old(store).last_id <= final(store).last_id <= old(store).last_id + 2 * names@.len(),
        *final(store) == (Store {
            authors: final(store).authors,
            module_authors: final(store).module_authors,
            system_events: final(store).system_events,
            last_id: final(store).last_id,
            ..*old(store)
        }),
{
    let ghost all = texts(names@);
    let mut j: usize = 0;
    proof {
        lemma_said_nothing(store.system_events@);
        assert(all.take(0) =~= Seq::<Seq<char>>::empty());
        assert(said(store.system_events@, old(store).system_events@) =~= one_each(
            EventKind::NewAuthor,
            first_seen(all.take(0)),
            ""@,
            *module_id,
        ));
    }
    while j < names.len()
        invariant
            j <= names.len(),
            all == texts(names@),
            store.wf(),
            old(store).last_id + 2 * names@.len() <= i64::MAX,
            old(store).last_id <= store.last_id <= old(store).last_id + 2 * j,
            module::has_id(store.modules@, *module_id),
            forall|k: int|
                0 <= k < names@.len() ==> !has_name(
                    old(store).module_authors@,
                    *module_id,
                    #[trigger] all[k],
                ),
            forall|m2: i64, n: Seq<char>|
                #[trigger] has_name(store.module_authors@, m2, n) <==> has_name(
                    old(store).module_authors@,
                    m2,
                    n,
                ) || (m2 == *module_id && all.take(j as int).contains(n)),
            extends(store.system_events@, old(store).system_events@),
            dated(store.system_events@, old(store).system_events@, now@),
            said(store.system_events@, old(store).system_events@) == one_each(
                EventKind::NewAuthor,
                first_seen(all.take(j as int)),
                ""@,
                *module_id,
            ),
            j == 0 ==> *store == *old(store),
            *store == (Store {
                authors: store.authors,
                module_authors: store.module_authors,
                system_events: store.system_events,
                last_id: store.last_id,
                ..*old(store)
            }),
        decreases names.len() - j,
    {
        let ghost before = *store;
        let ghost name = all[j as int];
        assert(name == names@[j as int]@);
        let r = self::add(store, module_id, names[j].as_str(), now);
        proof {
            lemma_first_seen_step(all, j as int);
            lemma_said_in_turn(
                old(store).system_events@,
                before.system_events@,
                store.system_events@,
            );
            assert(has_name(before.module_authors@, *module_id, name) <==> all.take(
                j as int,
            ).contains(name));
            if has_name(before.module_authors@, *module_id, name) {
                assert(said(store.system_events@, before.system_events@) =~= Seq::<
                    Signature,
                >::empty()) by {
                    lemma_said_nothing(before.system_events@);
                }
            }
            assert(said(store.system_events@, old(store).system_events@) =~= one_each(
                EventKind::NewAuthor,
                first_seen(all.take(j + 1)),
                ""@,
                *module_id,
            ));
            assert forall|m2: i64, n: Seq<char>|
                #[trigger] has_name(store.module_authors@, m2, n) <==> has_name(
                    old(store).module_authors@,
                    m2,
                    n,
                ) || (m2 == *module_id && all.take(j + 1).contains(n)) by {
                lemma_take_contains_step(all, j as int, n);
                assert(has_name(before.module_authors@, m2, n) <==> has_name(
                    old(store).module_authors@,
                    m2,
                    n,
                ) || (m2 == *module_id && all.take(j as int).contains(n)));
                if !has_name(before.module_authors@, *module_id, name) {
                    let rows = before.module_authors@;
                    let after = store.module_authors@;
                    assert(after[rows.len() as int] == r);
                    if has_name(after, m2, n) {
                        let w = choose|w: Model|
                            #[trigger] after.contains(w) && w.module_id.0 == m2 && w.author_id.1@
                                == n;
                        let i = choose|i: int| 0 <= i < after.len() && after[i] == w;
                        if i < rows.len() {
                            assert(rows[i] == w);
                            assert(rows.contains(w));
                        }
                    }
                    if has_name(rows, m2, n) {
                        let w = choose|w: Model|
                            #[trigger] rows.contains(w) && w.module_id.0 == m2 && w.author_id.1@
                                == n;
                        let i = choose|i: int| 0 <= i < rows.len() && rows[i] == w;
                        assert(after[i] == w);
                        assert(after.contains(w));
                    }
                }
            }
        }
        j += 1;
    }
    proof {
        assert(all.take(names@.len() as int) =~= all);
    }
}

/// Brings the authors of the module `module_id` in line with `names`: takes
/// away each link to a name that `names` does not hold, adds a link to each
/// name that the module lacked, and reports each of them.
pub fn sync(store: &mut Store, module_id: &i64, names: &Vec<String>, now: &str)
    requires
        old(store).wf(),
        old(store).last_id + 2 * names@.len() <= i64::MAX,
        module::has_id(old(store).modules@, *module_id),
    ensures
        final(store).wf(),
        forall|m2: i64, n: Seq<char>|
            #[trigger] has_name(final(store).module_authors@, m2, n) <==> if m2 == *module_id {
                texts(names@).contains(n)
            } else {
                has_name(old(store).module_authors@, m2, n)
            },
        extends(final(store).system_events@, old(store).system_events@),
        dated(final(store).system_events@, old(store).system_events@, now@),
        said(final(store).system_events@, old(store).system_events@) == said_by_sync(
            names_of_module(old(store).module_authors@, *module_id),
            texts(names@),
            *module_id,
        ),
        said_by_sync(
            names_of_module(old(store).module_authors@, *module_id),
            texts(names@),
            *module_id,
        ).len() == 0 ==> *final(store) == *old(store),
        old(store).last_id <= final(store).last_id <= old(store).last_id + 2 * names@.len(),
        *final(store) == (Store {
            authors: final(store).authors,
            module_authors: final(store).module_authors,
            system_events: final(store).system_events,
            last_id: final(store).last_id,
            ..*old(store)
        }),
{
    let module = module::get_by_id(store, module_id).unwrap();
    let stored = get_names_by_module_id(store, module_id);
    let to_remove = difference(&stored, names);
    let to_add = difference(names, &stored);
    let ghost had = texts(stored@);
    let ghost wanted = texts(names@);
    proof {
        assert forall|n: Seq<char>| had.contains(n) <==> has_name(
            old(store).module_authors@,
            *module_id,
            n,
        ) by {
            lemma_names_of_module(old(store).module_authors@, *module_id, n);
        }
        assert forall|k: int| 0 <= k < to_remove@.len() implies has_name(
            old(store).module_authors@,
            module.id,
            #[trigger] texts(to_remove@)[k],
        ) by {
            lemma_minus_contains(had, wanted, texts(to_remove@)[k]);
        }
        assert(minus(wanted, had).len() <= wanted.len()) by {
            lemma_minus_len(wanted, had);
        }
    }
    unlink(store, &module, &to_remove, now);
    let ghost mid = *store;
    proof {
        assert forall|k: int| 0 <= k < to_add@.len() implies !has_name(
            mid.module_authors@,
            *module_id,
            #[trigger] texts(to_add@)[k],
        ) by {
            lemma_minus_contains(wanted, had, texts(to_add@)[k]);
        }
    }
    link(store, module_id, &to_add, now);
    proof {
        lemma_said_in_turn(old(store).system_events@, mid.system_events@, store.system_events@);
        assert forall|m2: i64, n: Seq<char>|
            #[trigger] has_name(store.module_authors@, m2, n) <==> if m2 == *module_id {
                wanted.contains(n)
            } else {
                has_name(old(store).module_authors@, m2, n)
            } by {
            lemma_minus_contains(had, wanted, n);
            lemma_minus_contains(wanted, had, n);
            assert(has_name(store.module_authors@, m2, n) <==> has_name(mid.module_authors@, m2, n)
                || (m2 == *module_id && texts(to_add@).contains(n)));
            assert(has_name(mid.module_authors@, m2, n) <==> has_name(
                old(store).module_authors@,
                m2,
                n,
            ) && !(m2 == module.id && texts(to_remove@).contains(n)));
        }
        if said_by_sync(had, wanted, *module_id).len() == 0 {
            assert(minus(had, wanted).len() == 0);
            assert(minus(wanted, had).len() == 0) by {
                if minus(wanted, had).len() > 0 {
                    let f = first_seen(minus(wanted, had));
                    crate::names::lemma_first_seen_contains(minus(wanted, had), minus(wanted, had)[0]);
                    assert(f.contains(minus(wanted, had)[0]));
                }
            }
        }
    }
}

/// How many of `rows` link a module to the author `author_id`.
pub open spec fn links_of(rows: Seq<Model>, author_id: i64) -> nat
    decreases rows.len(),
{
    if rows.len() == 0 {
        0
    } else {
        links_of(rows.drop_last(), author_id) + if rows.last().author_id.0 == author_id {
            1nat
        } else {
            0nat
        }
    }
}

/// `n`, or the greatest number of thirty-two bits where `n` is greater.
pub open spec fn capped(n: nat) -> u32 {
    if n > u32::MAX {
        u32::MAX
    } else {
        n as u32
    }
}

/// How many modules the author at `i` has, at most the greatest number of
/// thirty-two bits.
pub open spec fn modules_of(store: Store, i: int) -> u32 {
    capped(links_of(store.module_authors@, store.authors@[i].id))
}

/// Whether `top` names the author at `i`, who has modules, with the number
/// of them.
pub open spec fn is_top(top: (i64, u32), store: Store, i: int) -> bool {
    &&& 0 <= i < store.authors@.len()
    &&& top.0 == store.authors@[i].id
    &&& top.1 == modules_of(store, i)
    &&& top.1 > 0
}

/// Whether `tops` names an author with modules.
pub open spec fn names_author(top: (i64, u32), store: Store) -> bool {
    exists|i: int| #[trigger] is_top(top, store, i)
}

/// Whether `tops` has the author at `i`.
pub open spec fn has_top(tops: Seq<(i64, u32)>, store: Store, i: int) -> bool {
    exists|k: int| 0 <= k < tops.len() && (#[trigger] tops[k]).0 == store.authors@[i].id
}

/// Whether `tops` are the authors with the most modules, `limit` at most,
/// the one with the most first: each has modules, and an author with
/// modules who is left out has no more than any of them, and is left out
/// only where `limit` are named.
pub open spec fn are_top(tops: Seq<(i64, u32)>, store: Store, limit: u8) -> bool {
    &&& tops.len() <= limit
    &&& forall|k: int| 0 <= k < tops.len() ==> names_author(#[trigger] tops[k], store)
    &&& forall|a: int, b: int| 0 <= a < b < tops.len() ==> (#[trigger] tops[a]).1 >= (#[trigger] tops[b]).1
    &&& forall|i: int|
        0 <= i < store.authors@.len() && #[trigger] modules_of(store, i) > 0 && !has_top(
            tops,
            store,
            i,
        ) ==> tops.len() == limit && forall|k: int|
            0 <= k < tops.len() ==> (#[trigger] tops[k]).1 >= modules_of(store, i)
}

fn count_links(store: &Store, author_id: i64) -> (r: u32)
    ensures
        r == capped(links_of(store.module_authors@, author_id)),
{
    let mut r: u32 = 0;
    let mut k: usize = 0;
    proof {
        assert(store.module_authors@.take(0) =~= Seq::<Model>::empty());
    }
    while k < store.module_authors.len()
        invariant
            k <= store.module_authors.len(),
            r == capped(links_of(store.module_authors@.take(k as int), author_id)),
        decreases store.module_authors.len() - k,
    {
        proof {
            assert(store.module_authors@.take(k + 1).drop_last() =~= store.module_authors@.take(
                k as int,
            ));
            assert(store.module_authors@.take(k + 1).last() == store.module_authors@[k as int]);
        }
        if store.module_authors[k].author_id.0 == author_id && r < u32::MAX {
            r += 1;
        }
        k += 1;
    }
    proof {
        assert(store.module_authors@.take(store.module_authors@.len() as int)
            =~= store.module_authors@);
    }
    r
}

/// The authors with the most modules, `limit` at most, the one with the most
/// first, each with the number of modules.
pub fn top_authors(store: &Store, limit: u8) -> (r: Vec<(i64, u32)>)
    ensures
        are_top(r@, *store, limit),
{
    let mut r: Vec<(i64, u32)> = Vec::new();
    let mut i: usize = 0;
    while i < store.authors.len()
        invariant
            i <= store.authors.len(),
            forall|k: int| 0 <= k < r@.len() ==> names_author(#[trigger] r@[k], *store),
            forall|a: int, b: int|
                0 <= a < b < r@.len() ==> (#[trigger] r@[a]).1 >= (#[trigger] r@[b]).1,
            forall|j: int|
                0 <= j < i && #[trigger] modules_of(*store, j) > 0 ==> has_top(r@, *store, j),
        decreases store.authors.len() - i,
    {
        let n = count_links(store, store.authors[i].id);
        if n > 0 {
            let mut at: usize = 0;
            while at < r.len() && r[at].1 >= n
                invariant
                    at <= r.len(),
                    forall|k: int| 0 <= k < at ==> (#[trigger] r@[k]).1 >= n,
                decreases r.len() - at,
            {
                at += 1;
            }
            let ghost before = r@;
            r.insert(at, (store.authors[i].id, n));
            proof {
                let after = r@;
                assert forall|k: int| 0 <= k < after.len() implies #[trigger] after[k] == (if k
                    < at {
                    before[k]
                } else if k == at {
                    after[at as int]
                } else {
                    before[k - 1]
                }) by {}
                assert(is_top(after[at as int], *store, i as int));
                assert forall|k: int| 0 <= k < after.len() implies names_author(
                    #[trigger] after[k],
                    *store,
                ) by {
                    if k < at {
                        assert(after[k] == before[k]);
                    } else if k > at {
                        assert(after[k] == before[k - 1]);
                    }
                }
                assert forall|a: int, b: int| 0 <= a < b < after.len() implies (
                #[trigger] after[a]).1 >= (#[trigger] after[b]).1 by {
                    if a != at && b != at {
                        let a2 = if a < at {
                            a
                        } else {
                            a - 1
                        };
                        let b2 = if b < at {
                            b
                        } else {
                            b - 1
                        };
                        assert(after[a] == before[a2] && after[b] == before[b2]);
                    } else if a == at {
                        assert(after[b] == before[b - 1]);
                    } else {
                        assert(after[a] == before[a]);
                    }
                }
                assert forall|j: int|
                    0 <= j < i + 1 && #[trigger] modules_of(*store, j) > 0 implies has_top(
                    after,
                    *store,
                    j,
                ) by {
                    if j < i {
                        let k = choose|k: int|
                            0 <= k < before.len() && (#[trigger] before[k]).0
                                == store.authors@[j].id;
                        if k < at {
                            assert(after[k] == before[k]);
                        } else {
                            assert(after[k + 1] == before[k]);
                        }
                    } else {
                        assert(after[at as int].0 == store.authors@[j].id);
                    }
                }
            }
        }
        i += 1;
    }
    let ghost all = r@;
    if r.len() > limit as usize {
        r.truncate(limit as usize);
    }
    proof {
        let kept = r@;
        assert forall|k: int| 0 <= k < kept.len() implies kept[k] == all[k] by {}
        assert forall|j: int|
            0 <= j < store.authors@.len() && #[trigger] modules_of(*store, j) > 0 && !has_top(
                kept,
                *store,
                j,
            ) implies kept.len() == limit && forall|k: int|
            0 <= k < kept.len() ==> (#[trigger] kept[k]).1 >= modules_of(*store, j) by {
            assert(has_top(all, *store, j));
            let w = choose|w: int| 0 <= w < all.len() && (#[trigger] all[w]).0 == store.authors@[j].id;
            if w < kept.len() {
                assert(kept[w] == all[w]);
            }
            assert(names_author(all[w], *store));
            let x = choose|x: int| #[trigger] is_top(all[w], *store, x);
            assert(store.authors@[x].id == store.authors@[j].id);
            assert forall|k: int| 0 <= k < kept.len() implies (#[trigger] kept[k]).1 >= modules_of(
                *store,
                j,
            ) by {
                assert(kept[k] == all[k]);
                assert(all[k].1 >= all[w].1);
            }
        }
    }
    r
}

/// Whether `names` give `tops` as texts, one for one: the identity of the
/// author and the number of modules, in decimal.
pub open spec fn shows_tops(names: Seq<TopAuthorJSON>, tops: Seq<(i64, u32)>) -> bool {
    names.len() == tops.len() && forall|k: int|
        0 <= k < names.len() ==> tops[k].0 >= 0 && (#[trigger] names[k]).author_id@ == decimal_text(
            tops[k].0 as nat,
        ) && names[k].count@ == decimal_text(tops[k].1 as nat)
}

/// Whether `names` give the authors with the most modules, `limit` at most.
pub open spec fn are_top_names(names: Seq<TopAuthorJSON>, store: Store, limit: u8) -> bool {
    exists|tops: Seq<(i64, u32)>| #[trigger] are_top(tops, store, limit) && shows_tops(names, tops)
}

/// The authors with the most modules, `limit` at most, the one with the most
/// first, each with the number of modules, as texts.
pub fn get_top_names(store: &Store, limit: &u8) -> (r: Vec<TopAuthorJSON>)
    requires
        store.wf(),
    ensures
        are_top_names(r@, *store, *limit),
{
    let tops = top_authors(store, *limit);
    let mut r: Vec<TopAuthorJSON> = Vec::new();
    let mut k: usize = 0;
    while k < tops.len()
        invariant
            k <= tops.len(),
            store.wf(),
            are_top(tops@, *store, *limit),
            shows_tops(r@, tops@.take(k as int)),
        decreases tops.len() - k,
    {
        proof {
            assert(names_author(tops@[k as int], *store));
            let i = choose|i: int| #[trigger] is_top(tops@[k as int], *store, i);
            assert(store.authors@[i].id > 0);
        }
        let ghost before = r@;
        r.push(
            TopAuthorJSON {
                author_id: decimal_string(tops[k].0 as u64),
                count: decimal_string(tops[k].1 as u64),
            },
        );
        proof {
            assert forall|w: int| 0 <= w < before.len() implies r@[w] == before[w] by {}
        }
        k += 1;
    }
    proof {
        assert(tops@.take(tops@.len() as int) =~= tops@);
    }
    r
}

} // verus!
