//! The dependency resolver: everything that a module needs, directly or
//! through the modules that it depends on.
//!
//! Peer modules are resolved within the bucket of the module that asks. Each
//! is recorded under the key of its repository; a name that no module of the
//! bucket has is recorded under the key of no repository and leads no
//! further. A pair of key and name that is recorded is never followed again,
//! which is what ends the walk on graphs with cycles.

use crate::models::dependency::{key_of_row, repository_key};
use crate::models::dependency_module;
use crate::models::dependency_type;
use crate::models::gh_repository;
use crate::models::module;
use crate::models::module_author;
use crate::models::module_maintainer;
use crate::models::store::Store;
use crate::names::{distinct, first_seen, holds_text, without_repeats};
use crate::text::{same_text, texts};
use crate::version::{odoo_version_text, odoo_version_u8_to_string};
use vstd::prelude::*;
use vstd::set_lib::lemma_len_subset;
use vstd::string::*;

verus! {

/// What a module needs: its peer modules by the key of their repository,
/// the interpreter packages and the binary tools.
#[derive(Debug)]
pub struct ModuleDependencyInfoResponse {
    pub odoo: Vec<(String, Vec<String>)>,
    pub pip: Vec<String>,
    pub bin: Vec<String>,
}

/// Whether `groups` holds the name `name` under the key `key`.
pub open spec fn holds(groups: Seq<(String, Vec<String>)>, key: Seq<char>, name: Seq<char>) -> bool {
    exists|i: int|
        0 <= i < groups.len() && (#[trigger] groups[i]).0@ == key && texts(groups[i].1@).contains(
            name,
        )
}

/// No key occurs twice in `groups`, no name twice under one key, and each
/// key holds a name.
pub open spec fn well_grouped(groups: Seq<(String, Vec<String>)>) -> bool {
    &&& forall|i: int, j: int|
        0 <= i < j < groups.len() ==> (#[trigger] groups[i]).0@ != (#[trigger] groups[j]).0@
    &&& forall|i: int| 0 <= i < groups.len() ==> distinct(texts((#[trigger] groups[i]).1@))
    &&& forall|i: int| 0 <= i < groups.len() ==> (#[trigger] groups[i]).1@.len() > 0
}

/// Records `name` under `key`, and says whether it was new there.
pub fn record(groups: &mut Vec<(String, Vec<String>)>, key: &str, name: &str) -> (fresh: bool)
    requires
        well_grouped(old(groups)@),
    ensures
        well_grouped(final(groups)@),
        fresh == !holds(old(groups)@, key@, name@),
        forall|k: Seq<char>, n: Seq<char>|
            #[trigger] holds(final(groups)@, k, n) <==> holds(old(groups)@, k, n) || (k == key@
                && n == name@),
{
    let mut i: usize = 0;
    while i < groups.len()
        invariant
            i <= groups.len(),
            *groups == *old(groups),
            well_grouped(groups@),
            forall|k: int| 0 <= k < i ==> (#[trigger] groups@[k]).0@ != key@,
        decreases groups.len() - i,
    {
        if same_text(groups[i].0.as_str(), key) {
            let ghost before = groups@;
            let known = holds_text(&groups[i].1, name);
            proof {
                assert forall|k: int| 0 <= k < before.len() && (#[trigger] before[k]).0@
                    == key@ implies k == i by {
                    if k < i {
                    } else if i < k {
                        assert(before[i as int].0@ != before[k].0@);
                    }
                }
                assert(known == holds(before, key@, name@));
            }
            if known {
                return false;
            }
            let mut names = crate::names::copy_names(&groups[i].1);
            let ghost had = names@;
            names.push(name.to_owned());
            let label = groups[i].0.clone();
            groups.set(i, (label, names));
            proof {
                let after = groups@;
                assert(texts(after[i as int].1@) =~= texts(had).push(name@));
                assert forall|k: int| 0 <= k < after.len() && k != i implies after[k]
                    == before[k] by {}
                assert forall|a: int, b: int| 0 <= a < b < after.len() implies (
                #[trigger] after[a]).0@ != (#[trigger] after[b]).0@ by {
                    assert(before[a].0@ != before[b].0@);
                }
                assert forall|a: int| 0 <= a < after.len() implies distinct(
                    texts((#[trigger] after[a]).1@),
                ) by {
                    if a == i {
                        let t = texts(after[i as int].1@);
                        assert(distinct(texts(before[i as int].1@)));
                        assert forall|x: int, y: int| 0 <= x < y < t.len() implies t[x]
                            != t[y] by {
                            if y == t.len() - 1 {
                                assert(texts(had)[x] == t[x]);
                            } else {
                                assert(texts(had)[x] == t[x] && texts(had)[y] == t[y]);
                            }
                        }
                    } else {
                        assert(distinct(texts(before[a].1@)));
                    }
                }
                assert forall|k: Seq<char>, n: Seq<char>|
                    #[trigger] holds(after, k, n) <==> holds(before, k, n) || (k == key@ && n
                        == name@) by {
                    if holds(after, k, n) {
                        let w = choose|w: int|
                            0 <= w < after.len() && (#[trigger] after[w]).0@ == k && texts(
                                after[w].1@,
                            ).contains(n);
                        if w == i {
                            let t = texts(after[i as int].1@);
                            let z = choose|z: int| 0 <= z < t.len() && t[z] == n;
                            if z < t.len() - 1 {
                                assert(texts(had)[z] == n);
                                assert(texts(before[i as int].1@).contains(n));
                            }
                        } else {
                            assert(before[w] == after[w]);
                        }
                    }
                    if holds(before, k, n) {
                        let w = choose|w: int|
                            0 <= w < before.len() && (#[trigger] before[w]).0@ == k && texts(
                                before[w].1@,
                            ).contains(n);
                        if w == i {
                            let z = choose|z: int|
                                0 <= z < texts(had).len() && texts(had)[z] == n;
                            assert(texts(after[i as int].1@)[z] == n);
                        } else {
                            assert(after[w] == before[w]);
                        }
                    }
                    if k == key@ && n == name@ {
                        let t = texts(after[i as int].1@);
                        assert(t[t.len() - 1] == n);
                    }
                }
            }
            return true;
        }
        i += 1;
    }
    let ghost before = groups@;
    let mut names: Vec<String> = Vec::new();
    names.push(name.to_owned());
    groups.push((key.to_owned(), names));
    proof {
        let after = groups@;
        let last = after.len() - 1;
        assert(texts(after[last].1@) =~= seq![name@]);
        assert(texts(after[last].1@)[0] == name@);
        assert forall|k: int| 0 <= k < before.len() implies after[k] == before[k] by {}
        assert forall|a: int| 0 <= a < after.len() implies distinct(
            texts((#[trigger] after[a]).1@),
        ) by {
            if a < before.len() {
                assert(distinct(texts(before[a].1@)));
            }
        }
        assert forall|k: Seq<char>, n: Seq<char>|
            #[trigger] holds(after, k, n) <==> holds(before, k, n) || (k == key@ && n
                == name@) by {
            if holds(after, k, n) {
                let w = choose|w: int|
                    0 <= w < after.len() && (#[trigger] after[w]).0@ == k && texts(
                        after[w].1@,
                    ).contains(n);
                if w < before.len() {
                    assert(before[w] == after[w]);
                }
            }
            if holds(before, k, n) {
                let w = choose|w: int|
                    0 <= w < before.len() && (#[trigger] before[w]).0@ == k && texts(
                        before[w].1@,
                    ).contains(n);
                assert(after[w] == before[w]);
            }
        }
        if holds(before, key@, name@) {
            let w = choose|w: int|
                0 <= w < before.len() && (#[trigger] before[w]).0@ == key@ && texts(
                    before[w].1@,
                ).contains(name@);
        }
    }
    true
}

/// The names of the dependencies of the kind `dep_type_id` of the module at
/// `row`.
pub open spec fn named(store: Store, row: int, dep_type_id: i64) -> Seq<Seq<char>> {
    dependency_module::names_of_module(
        store.dependency_modules@,
        store.dependencies@,
        store.modules@[row].id,
        dep_type_id,
    )
}

/// Whether the module at `x` has the technical name `name` in the bucket
/// `bucket`.
pub open spec fn is_home(store: Store, x: int, name: Seq<char>, bucket: u8) -> bool {
    &&& 0 <= x < store.modules@.len()
    &&& store.modules@[x].technical_name@ == name
    &&& store.modules@[x].version_odoo == bucket
}

/// The key of the repository of the module at `x`.
pub open spec fn key_at(store: Store, x: int) -> Seq<char> {
    repository_key(store.repositories@, store.modules@[x])
}

/// Whether the module at `y` depends directly on the peer module `name`
/// under `key`: it lists the name, and `key` is the key of the repository of
/// a module of that name in the bucket, or the key of no repository where
/// the bucket has no module of that name.
pub open spec fn is_direct(store: Store, y: int, key: Seq<char>, name: Seq<char>) -> bool {
    let bucket = store.modules@[y].version_odoo;
    &&& named(store, y, dependency_type::MODULE).contains(name)
    &&& (exists|x: int| #[trigger] is_home(store, x, name, bucket) && key == key_at(store, x)) || (
    key == "/"@ && forall|x: int| !#[trigger] is_home(store, x, name, bucket))
}

/// Whether the module at `x` stands for the pair of `key` and `name` in the
/// bucket `bucket`: it is the first module of that name and bucket in a
/// repository with that key.
pub open spec fn stands_for(store: Store, x: int, key: Seq<char>, name: Seq<char>, bucket: u8) -> bool {
    &&& is_home(store, x, name, bucket)
    &&& key_at(store, x) == key
    &&& forall|w: int|
        0 <= w < x && #[trigger] is_home(store, w, name, bucket) ==> key_at(store, w) != key
}

/// Whether the walk goes from the module at `y` to the module at `x`: `x`
/// stands for a pair that `y` depends on directly.
pub open spec fn steps_to(store: Store, y: int, x: int) -> bool {
    exists|key: Seq<char>, name: Seq<char>|
        #[trigger] is_direct(store, y, key, name) && stands_for(
            store,
            x,
            key,
            name,
            store.modules@[y].version_odoo,
        )
}

/// Whether `path` is a walk from the module at `root`.
pub open spec fn is_path(store: Store, root: int, path: Seq<int>) -> bool {
    &&& path.len() >= 1
    &&& path[0] == root
    &&& forall|i: int| 0 <= i < path.len() ==> 0 <= #[trigger] path[i] < store.modules@.len()
    &&& forall|i: int| 0 <= i < path.len() - 1 ==> steps_to(store, #[trigger] path[i], path[i + 1])
}

/// Whether the walk from the module at `root` comes to the module at `x`.
pub open spec fn reaches(store: Store, root: int, x: int) -> bool {
    exists|path: Seq<int>| #[trigger] is_path(store, root, path) && path.last() == x
}

/// Whether the module at `root` needs the peer module `name` under `key`,
/// directly or through the modules that it depends on.
pub open spec fn needs_module(store: Store, root: int, key: Seq<char>, name: Seq<char>) -> bool {
    exists|x: int| #[trigger] reaches(store, root, x) && is_direct(store, x, key, name)
}

/// Whether the module at `root` needs the dependency `name` of the kind
/// `dep_type_id`, directly or through the modules that it depends on.
pub open spec fn needs(store: Store, root: int, dep_type_id: i64, name: Seq<char>) -> bool {
    exists|x: int|
        #[trigger] reaches(store, root, x) && named(store, x, dep_type_id).contains(name)
}

/// Whether everything that the module at `x` needs directly is in the
/// answer: its peer modules in `groups`, its packages in `pip`, its tools in
/// `bin`.
pub open spec fn is_covered(
    store: Store,
    x: int,
    groups: Seq<(String, Vec<String>)>,
    pip: Seq<Seq<char>>,
    bin: Seq<Seq<char>>,
) -> bool {
    &&& forall|k: Seq<char>, n: Seq<char>|
        #[trigger] is_direct(store, x, k, n) ==> holds(groups, k, n)
    &&& forall|n: Seq<char>|
        #[trigger] named(store, x, dependency_type::PYTHON).contains(n) ==> pip.contains(n)
    &&& forall|n: Seq<char>|
        #[trigger] named(store, x, dependency_type::BIN).contains(n) ==> bin.contains(n)
}

/// Whether `later` holds what `earlier` holds.
pub open spec fn grown(
    earlier: Seq<(String, Vec<String>)>,
    later: Seq<(String, Vec<String>)>,
) -> bool {
    forall|k: Seq<char>, n: Seq<char>| #[trigger] holds(earlier, k, n) ==> holds(later, k, n)
}

/// Whether `later` holds the names of `earlier`.
pub open spec fn extended(earlier: Seq<Seq<char>>, later: Seq<Seq<char>>) -> bool {
    forall|n: Seq<char>| #[trigger] earlier.contains(n) ==> later.contains(n)
}

/// Every pair that a module of the catalog can be recorded under.
pub open spec fn all_pairs(store: Store) -> Set<(Seq<char>, Seq<char>)> {
    Seq::new(
        store.modules@.len(),
        |x: int| (key_at(store, x), store.modules@[x].technical_name@),
    ).to_set()
}

/// The pairs that `groups` holds.
pub open spec fn pairs(groups: Seq<(String, Vec<String>)>) -> Set<(Seq<char>, Seq<char>)> {
    Set::new(|p: (Seq<char>, Seq<char>)| holds(groups, p.0, p.1))
}

/// The pairs of modules that `groups` does not hold yet: what is left for
/// the walk to follow.
pub open spec fn unrecorded(store: Store, groups: Seq<(String, Vec<String>)>) -> Set<
    (Seq<char>, Seq<char>),
> {
    all_pairs(store).difference(pairs(groups))
}

/// What the walk has met: the pairs of key and name that it has recorded,
/// and the packages and the tools in the order in which it has met them,
/// each as often as it was met.
pub struct Trail {
    pub seen: Set<(Seq<char>, Seq<char>)>,
    pub pip: Seq<Seq<char>>,
    pub bin: Seq<Seq<char>>,
}

/// The trail that `groups`, `pip` and `bin` stand for.
pub open spec fn trail_of(groups: Seq<(String, Vec<String>)>, pip: Seq<String>, bin: Seq<String>) -> Trail {
    Trail { seen: pairs(groups), pip: texts(pip), bin: texts(bin) }
}

/// The trail `t` with the packages and the tools of the module at `y`
/// behind what it holds.
pub open spec fn entered(store: Store, y: int, t: Trail) -> Trail {
    Trail {
        seen: t.seen,
        pip: t.pip + named(store, y, dependency_type::PYTHON),
        bin: t.bin + named(store, y, dependency_type::BIN),
    }
}

/// The walk through the peer modules of the module at `y`, from its peer
/// at `a` and the row at `x` on, with the trail `t` behind it. Peers are
/// taken in the order of the edges, and for each peer the rows of the
/// catalog in their order. A row that has the peer's name in the bucket is
/// a home of the peer: where its pair of key and name is new, the pair is
/// recorded, the packages and the tools of the row are taken, and the walk
/// goes through the peers of that row before it goes on; where the pair is
/// recorded already, the row is passed. A peer without a home is recorded
/// under the key of no repository. `found` says whether a home of the peer
/// at `a` was met before `x`. `depth` bounds how far the walk descends; it
/// never needs more than there are pairs left to record.
pub open spec fn walk(store: Store, depth: nat, y: int, a: int, x: int, found: bool, t: Trail) -> Trail
    decreases depth, named(store, y, dependency_type::MODULE).len() - a, store.modules@.len() - x,
{
    let peers = named(store, y, dependency_type::MODULE);
    let bucket = store.modules@[y].version_odoo;
    if a < 0 || a >= peers.len() || x < 0 {
        t
    } else if x >= store.modules@.len() {
        walk(
            store,
            depth,
            y,
            a + 1,
            0,
            false,
            if found {
                t
            } else {
                Trail { seen: t.seen.insert(("/"@, peers[a])), pip: t.pip, bin: t.bin }
            },
        )
    } else if !is_home(store, x, peers[a], bucket) {
        walk(store, depth, y, a, x + 1, found, t)
    } else if t.seen.contains((key_at(store, x), peers[a])) || depth == 0 {
        walk(store, depth, y, a, x + 1, true, t)
    } else {
        let met = Trail {
            seen: t.seen.insert((key_at(store, x), peers[a])),
            pip: t.pip,
            bin: t.bin,
        };
        walk(
            store,
            depth,
            y,
            a,
            x + 1,
            true,
            walk(store, (depth - 1) as nat, x, 0, 0, false, entered(store, x, met)),
        )
    }
}

/// The walk from the module at `root`: its own packages and tools first,
/// then its peers, each followed as far as it leads.
pub open spec fn closure(store: Store, root: int) -> Trail {
    walk(
        store,
        all_pairs(store).len(),
        root,
        0,
        0,
        false,
        entered(
            store,
            root,
            Trail {
                seen: Set::<(Seq<char>, Seq<char>)>::empty(),
                pip: Seq::<Seq<char>>::empty(),
                bin: Seq::<Seq<char>>::empty(),
            },
        ),
    )
}

/// Recording a pair puts it among the pairs that are held.
proof fn lemma_pairs_after(
    before: Seq<(String, Vec<String>)>,
    after: Seq<(String, Vec<String>)>,
    key: Seq<char>,
    name: Seq<char>,
)
    requires
        forall|k: Seq<char>, n: Seq<char>|
            #[trigger] holds(after, k, n) <==> holds(before, k, n) || (k == key && n == name),
    ensures
        pairs(after) == pairs(before).insert((key, name)),
{
    assert(pairs(after) =~= pairs(before).insert((key, name))) by {
        assert forall|q: (Seq<char>, Seq<char>)|
            pairs(after).contains(q) <==> pairs(before).insert((key, name)).contains(q) by {
            assert(holds(after, q.0, q.1) <==> holds(before, q.0, q.1) || (q.0 == key && q.1
                == name));
        }
    }
}

/// What is left to follow is never more than all the pairs.
proof fn lemma_left_at_most(store: Store, groups: Seq<(String, Vec<String>)>)
    ensures
        all_pairs(store).finite(),
        unrecorded(store, groups).len() <= all_pairs(store).len(),
{
    let all = Seq::new(
        store.modules@.len(),
        |x: int| (key_at(store, x), store.modules@[x].technical_name@),
    );
    vstd::seq_lib::seq_to_set_is_finite(all);
    lemma_len_subset(unrecorded(store, groups), all.to_set());
}

/// Recording the pair of a module that was not recorded leaves less to
/// follow.
proof fn lemma_less_left(
    store: Store,
    entry: Seq<(String, Vec<String>)>,
    before: Seq<(String, Vec<String>)>,
    after: Seq<(String, Vec<String>)>,
    x: int,
)
    requires
        0 <= x < store.modules@.len(),
        grown(entry, before),
        !holds(before, key_at(store, x), store.modules@[x].technical_name@),
        forall|k: Seq<char>, n: Seq<char>|
            #[trigger] holds(after, k, n) <==> holds(before, k, n) || (k == key_at(store, x) && n
                == store.modules@[x].technical_name@),
    ensures
        unrecorded(store, after).len() < unrecorded(store, entry).len(),
        unrecorded(store, entry).finite(),
{
    let all = Seq::new(
        store.modules@.len(),
        |x: int| (key_at(store, x), store.modules@[x].technical_name@),
    );
    vstd::seq_lib::seq_to_set_is_finite(all);
    let p = (key_at(store, x), store.modules@[x].technical_name@);
    assert(all[x] == p);
    assert(all.to_set().contains(p));
    let u1 = unrecorded(store, entry);
    let u2 = unrecorded(store, before);
    let u3 = unrecorded(store, after);
    lemma_len_subset(u1, all.to_set());
    assert(u2.subset_of(u1)) by {
        assert forall|q: (Seq<char>, Seq<char>)| u2.contains(q) implies u1.contains(q) by {
            if holds(entry, q.0, q.1) {
                assert(holds(before, q.0, q.1));
            }
        }
    }
    lemma_len_subset(u2, u1);
    assert(u3 =~= u2.remove(p)) by {
        assert forall|q: (Seq<char>, Seq<char>)| u3.contains(q) <==> u2.remove(p).contains(q) by {
            assert(holds(after, q.0, q.1) <==> holds(before, q.0, q.1) || (q.0 == p.0 && q.1
                == p.1));
        }
    }
    assert(u2.contains(p));
}

/// One module at most stands for a pair.
proof fn lemma_stands_once(
    store: Store,
    a: int,
    b: int,
    key: Seq<char>,
    name: Seq<char>,
    bucket: u8,
)
    requires
        stands_for(store, a, key, name, bucket),
        stands_for(store, b, key, name, bucket),
    ensures
        a == b,
{
    if a < b {
        assert(is_home(store, a, name, bucket));
    } else if b < a {
        assert(is_home(store, b, name, bucket));
    }
}

/// A walk stays in the bucket that it starts in.
proof fn lemma_one_bucket(store: Store, root: int, path: Seq<int>)
    requires
        is_path(store, root, path),
    ensures
        store.modules@[path.last()].version_odoo == store.modules@[root].version_odoo,
    decreases path.len(),
{
    if path.len() > 1 {
        let init = path.drop_last();
        assert forall|i: int| 0 <= i < init.len() implies 0 <= #[trigger] init[i]
            < store.modules@.len() by {
            assert(init[i] == path[i]);
        }
        assert forall|i: int| 0 <= i < init.len() - 1 implies steps_to(
            store,
            #[trigger] init[i],
            init[i + 1],
        ) by {
            assert(init[i] == path[i] && init[i + 1] == path[i + 1]);
        }
        lemma_one_bucket(store, root, init);
        let y = path[path.len() - 2];
        assert(init.last() == y);
        assert(steps_to(store, y, path[path.len() - 2 + 1]));
    }
}

/// A walk can go one step on.
proof fn lemma_path_on(store: Store, root: int, path: Seq<int>, x: int)
    requires
        is_path(store, root, path),
        0 <= x < store.modules@.len(),
        steps_to(store, path.last(), x),
    ensures
        is_path(store, root, path.push(x)),
        path.push(x).last() == x,
{
    let next = path.push(x);
    assert forall|i: int| 0 <= i < next.len() implies 0 <= #[trigger] next[i]
        < store.modules@.len() by {
        if i < path.len() {
            assert(next[i] == path[i]);
        }
    }
    assert forall|i: int| 0 <= i < next.len() - 1 implies steps_to(
        store,
        #[trigger] next[i],
        next[i + 1],
    ) by {
        if i < path.len() - 1 {
            assert(next[i] == path[i] && next[i + 1] == path[i + 1]);
        } else {
            assert(next[i] == path.last());
        }
    }
}

/// An answer of the walk from the module at `root`, as far as it has come.
pub struct Answer {
    pub groups: Seq<(String, Vec<String>)>,
    pub pip: Seq<Seq<char>>,
    pub bin: Seq<Seq<char>>,
}

/// Whether the walk from the module at `root` can have made `later` of
/// `earlier`: nothing is lost, what is new is needed by the root, and every
/// module that stands for a new pair has everything that it needs directly
/// in the answer.
pub open spec fn walked(store: Store, root: int, earlier: Answer, later: Answer) -> bool {
    let bucket = store.modules@[root].version_odoo;
    &&& well_grouped(later.groups)
    &&& grown(earlier.groups, later.groups)
    &&& extended(earlier.pip, later.pip)
    &&& extended(earlier.bin, later.bin)
    &&& forall|k: Seq<char>, n: Seq<char>, x: int|
        #[trigger] stands_for(store, x, k, n, bucket) && holds(later.groups, k, n) && !holds(
            earlier.groups,
            k,
            n,
        ) ==> is_covered(store, x, later.groups, later.pip, later.bin)
    &&& forall|k: Seq<char>, n: Seq<char>|
        #[trigger] holds(later.groups, k, n) && !holds(earlier.groups, k, n) ==> needs_module(
            store,
            root,
            k,
            n,
        )
    &&& forall|n: Seq<char>|
        #[trigger] later.pip.contains(n) && !earlier.pip.contains(n) ==> needs(
            store,
            root,
            dependency_type::PYTHON,
            n,
        )
    &&& forall|n: Seq<char>|
        #[trigger] later.bin.contains(n) && !earlier.bin.contains(n) ==> needs(
            store,
            root,
            dependency_type::BIN,
            n,
        )
}

/// A module whose needs are in an answer has them in every later one.
proof fn lemma_stays_covered(store: Store, x: int, earlier: Answer, later: Answer)
    requires
        is_covered(store, x, earlier.groups, earlier.pip, earlier.bin),
        grown(earlier.groups, later.groups),
        extended(earlier.pip, later.pip),
        extended(earlier.bin, later.bin),
    ensures
        is_covered(store, x, later.groups, later.pip, later.bin),
{
    assert forall|k: Seq<char>, n: Seq<char>| #[trigger] is_direct(store, x, k, n) implies holds(
        later.groups,
        k,
        n,
    ) by {
        assert(holds(earlier.groups, k, n));
    }
    assert forall|n: Seq<char>| #[trigger]
        named(store, x, dependency_type::PYTHON).contains(n) implies later.pip.contains(n) by {
        assert(earlier.pip.contains(n));
    }
    assert forall|n: Seq<char>| #[trigger]
        named(store, x, dependency_type::BIN).contains(n) implies later.bin.contains(n) by {
        assert(earlier.bin.contains(n));
    }
}

/// The walk goes on: where it made `before` of `entry`, then recorded the
/// pair of the module at `x`, which the module at `y` depends on directly,
/// and from there made `after` with the needs of `x` in it, it made `after`
/// of `entry`.
proof fn lemma_walk_on(
    store: Store,
    root: int,
    y: int,
    x: int,
    entry: Answer,
    before: Answer,
    marked: Answer,
    after: Answer,
)
    requires
        walked(store, root, entry, before),
        reaches(store, root, y),
        store.modules@[y].version_odoo == store.modules@[root].version_odoo,
        is_direct(store, y, key_at(store, x), store.modules@[x].technical_name@),
        stands_for(
            store,
            x,
            key_at(store, x),
            store.modules@[x].technical_name@,
            store.modules@[root].version_odoo,
        ),
        marked.pip == before.pip,
        marked.bin == before.bin,
        forall|k: Seq<char>, n: Seq<char>|
            #[trigger] holds(marked.groups, k, n) <==> holds(before.groups, k, n) || (k == key_at(
                store,
                x,
            ) && n == store.modules@[x].technical_name@),
        walked(store, root, marked, after),
        is_covered(store, x, after.groups, after.pip, after.bin),
    ensures
        walked(store, root, entry, after),
{
    let bucket = store.modules@[root].version_odoo;
    let key = key_at(store, x);
    let name = store.modules@[x].technical_name@;
    assert(grown(entry.groups, after.groups)) by {
        assert forall|k: Seq<char>, n: Seq<char>| #[trigger]
            holds(entry.groups, k, n) implies holds(after.groups, k, n) by {
            assert(holds(before.groups, k, n));
            assert(holds(marked.groups, k, n));
        }
    }
    assert(grown(before.groups, after.groups)) by {
        assert forall|k: Seq<char>, n: Seq<char>| #[trigger]
            holds(before.groups, k, n) implies holds(after.groups, k, n) by {
            assert(holds(marked.groups, k, n));
        }
    }
    assert(extended(entry.pip, after.pip)) by {
        assert forall|n: Seq<char>| #[trigger] entry.pip.contains(n) implies after.pip.contains(
            n,
        ) by {
            assert(before.pip.contains(n));
        }
    }
    assert(extended(entry.bin, after.bin)) by {
        assert forall|n: Seq<char>| #[trigger] entry.bin.contains(n) implies after.bin.contains(
            n,
        ) by {
            assert(before.bin.contains(n));
        }
    }
    assert forall|k: Seq<char>, n: Seq<char>, w: int|
        #[trigger] stands_for(store, w, k, n, bucket) && holds(after.groups, k, n) && !holds(
            entry.groups,
            k,
            n,
        ) implies is_covered(store, w, after.groups, after.pip, after.bin) by {
        if holds(before.groups, k, n) {
            lemma_stays_covered(store, w, before, after);
        } else if k == key && n == name {
            lemma_stands_once(store, w, x, k, n, bucket);
        } else {
            assert(!holds(marked.groups, k, n));
        }
    }
    assert forall|k: Seq<char>, n: Seq<char>|
        #[trigger] holds(after.groups, k, n) && !holds(entry.groups, k, n) implies needs_module(
        store,
        root,
        k,
        n,
    ) by {
        if holds(before.groups, k, n) {
        } else if k == key && n == name {
            assert(reaches(store, root, y) && is_direct(store, y, k, n));
        } else {
            assert(!holds(marked.groups, k, n));
        }
    }
    assert forall|n: Seq<char>|
        #[trigger] after.pip.contains(n) && !entry.pip.contains(n) implies needs(
        store,
        root,
        dependency_type::PYTHON,
        n,
    ) by {
        if before.pip.contains(n) {
        }
    }
    assert forall|n: Seq<char>|
        #[trigger] after.bin.contains(n) && !entry.bin.contains(n) implies needs(
        store,
        root,
        dependency_type::BIN,
        n,
    ) by {
        if before.bin.contains(n) {
        }
    }
}

/// The walk goes on where it records a name that no module of the bucket
/// has: such a pair is needed, and no module stands for it.
proof fn lemma_walk_leaf(
    store: Store,
    root: int,
    y: int,
    name: Seq<char>,
    entry: Answer,
    before: Answer,
    after: Answer,
)
    requires
        walked(store, root, entry, before),
        well_grouped(after.groups),
        reaches(store, root, y),
        store.modules@[y].version_odoo == store.modules@[root].version_odoo,
        is_direct(store, y, "/"@, name),
        forall|x: int| !#[trigger] is_home(store, x, name, store.modules@[root].version_odoo),
        after.pip == before.pip,
        after.bin == before.bin,
        forall|k: Seq<char>, n: Seq<char>|
            #[trigger] holds(after.groups, k, n) <==> holds(before.groups, k, n) || (k == "/"@
                && n == name),
    ensures
        walked(store, root, entry, after),
{
    let bucket = store.modules@[root].version_odoo;
    assert(grown(entry.groups, after.groups)) by {
        assert forall|k: Seq<char>, n: Seq<char>| #[trigger]
            holds(entry.groups, k, n) implies holds(after.groups, k, n) by {
            assert(holds(before.groups, k, n));
        }
    }
    assert(grown(before.groups, after.groups));
    assert(extended(before.pip, after.pip));
    assert(extended(before.bin, after.bin));
    assert forall|k: Seq<char>, n: Seq<char>, w: int|
        #[trigger] stands_for(store, w, k, n, bucket) && holds(after.groups, k, n) && !holds(
            entry.groups,
            k,
            n,
        ) implies is_covered(store, w, after.groups, after.pip, after.bin) by {
        if holds(before.groups, k, n) {
            lemma_stays_covered(store, w, before, after);
        } else {
            assert(is_home(store, w, name, bucket));
        }
    }
    assert forall|k: Seq<char>, n: Seq<char>|
        #[trigger] holds(after.groups, k, n) && !holds(entry.groups, k, n) implies needs_module(
        store,
        root,
        k,
        n,
    ) by {
        if holds(before.groups, k, n) {
        } else {
            assert(reaches(store, root, y) && is_direct(store, y, k, n));
        }
    }
}

/// The answer that the three lists make.
pub open spec fn answer_of(
    groups: Seq<(String, Vec<String>)>,
    pip: Seq<String>,
    bin: Seq<String>,
) -> Answer {
    Answer { groups, pip: texts(pip), bin: texts(bin) }
}

pub(crate) fn append_names(list: &mut Vec<String>, more: &Vec<String>)
    ensures
        texts(final(list)@) == texts(old(list)@) + texts(more@),
{
    let mut i: usize = 0;
    assert(texts(list@) =~= texts(old(list)@) + texts(more@).take(0));
    while i < more.len()
        invariant
            i <= more.len(),
            texts(list@) == texts(old(list)@) + texts(more@).take(i as int),
        decreases more.len() - i,
    {
        let ghost before = list@;
        list.push(more[i].clone());
        assert(texts(list@) =~= texts(before).push(more@[i as int]@));
        assert(texts(list@) =~= texts(old(list)@) + texts(more@).take(i + 1));
        i += 1;
    }
    assert(texts(more@).take(more@.len() as int) =~= texts(more@));
}

/// The walk, from the module at `y`, which it has come to along `path`:
/// takes the packages and the tools of the module, then follows each of its
/// peer modules whose pair of key and name is new.
fn expand(
    store: &Store,
    y: usize,
    groups: &mut Vec<(String, Vec<String>)>,
    pip: &mut Vec<String>,
    bin: &mut Vec<String>,
    Ghost(root): Ghost<int>,
    Ghost(path): Ghost<Seq<int>>,
    Ghost(depth): Ghost<nat>,
)
    requires
        store.wf(),
        well_grouped(old(groups)@),
        y < store.modules@.len(),
        is_path(*store, root, path),
        path.last() == y,
        depth >= unrecorded(*store, old(groups)@).len(),
    ensures
        trail_of(final(groups)@, final(pip)@, final(bin)@) == walk(
            *store,
            depth,
            y as int,
            0,
            0,
            false,
            entered(*store, y as int, trail_of(old(groups)@, old(pip)@, old(bin)@)),
        ),
        walked(
            *store,
            root,
            answer_of(old(groups)@, old(pip)@, old(bin)@),
            answer_of(final(groups)@, final(pip)@, final(bin)@),
        ),
        is_covered(
            *store,
            y as int,
            final(groups)@,
            texts(final(pip)@),
            texts(final(bin)@),
        ),
    decreases unrecorded(*store, old(groups)@).len(),
{
    let ghost entry = answer_of(groups@, pip@, bin@);
    let ghost goal = walk(
        *store,
        depth,
        y as int,
        0,
        0,
        false,
        entered(*store, y as int, trail_of(groups@, pip@, bin@)),
    );
    let bucket = store.modules[y].version_odoo;
    proof {
        lemma_one_bucket(*store, root, path);
        assert(reaches(*store, root, y as int));
    }
    let packages = dependency_module::get_names(
        store,
        &store.modules[y].id,
        &dependency_type::PYTHON,
    );
    append_names(pip, &packages);
    let tools = dependency_module::get_names(store, &store.modules[y].id, &dependency_type::BIN);
    append_names(bin, &tools);
    let names = dependency_module::get_names(
        store,
        &store.modules[y].id,
        &dependency_type::MODULE,
    );
    let ghost peers = texts(names@);
    proof {
        let now_is = answer_of(groups@, pip@, bin@);
        assert(extended(entry.pip, now_is.pip)) by {
            assert forall|n: Seq<char>| #[trigger] entry.pip.contains(n) implies now_is.pip.contains(
                n,
            ) by {
                let i = choose|i: int| 0 <= i < entry.pip.len() && entry.pip[i] == n;
                assert(now_is.pip[i] == n);
            }
        }
        assert(extended(entry.bin, now_is.bin)) by {
            assert forall|n: Seq<char>| #[trigger] entry.bin.contains(n) implies now_is.bin.contains(
                n,
            ) by {
                let i = choose|i: int| 0 <= i < entry.bin.len() && entry.bin[i] == n;
                assert(now_is.bin[i] == n);
            }
        }
        assert forall|n: Seq<char>|
            #[trigger] now_is.pip.contains(n) && !entry.pip.contains(n) implies needs(
            *store,
            root,
            dependency_type::PYTHON,
            n,
        ) by {
            let i = choose|i: int| 0 <= i < now_is.pip.len() && now_is.pip[i] == n;
            if i < entry.pip.len() {
                assert(entry.pip[i] == n);
            } else {
                assert(texts(packages@)[i - entry.pip.len()] == n);
                assert(named(*store, y as int, dependency_type::PYTHON).contains(n));
            }
        }
        assert forall|n: Seq<char>|
            #[trigger] now_is.bin.contains(n) && !entry.bin.contains(n) implies needs(
            *store,
            root,
            dependency_type::BIN,
            n,
        ) by {
            let i = choose|i: int| 0 <= i < now_is.bin.len() && now_is.bin[i] == n;
            if i < entry.bin.len() {
                assert(entry.bin[i] == n);
            } else {
                assert(texts(tools@)[i - entry.bin.len()] == n);
                assert(named(*store, y as int, dependency_type::BIN).contains(n));
            }
        }
        assert forall|n: Seq<char>| #[trigger]
            named(*store, y as int, dependency_type::PYTHON).contains(
                n,
            ) implies now_is.pip.contains(n) by {
            let i = choose|i: int| 0 <= i < texts(packages@).len() && texts(packages@)[i] == n;
            assert(now_is.pip[entry.pip.len() + i] == n);
        }
        assert forall|n: Seq<char>| #[trigger]
            named(*store, y as int, dependency_type::BIN).contains(n) implies now_is.bin.contains(
            n,
        ) by {
            let i = choose|i: int| 0 <= i < texts(tools@).len() && texts(tools@)[i] == n;
            assert(now_is.bin[entry.bin.len() + i] == n);
        }
        assert(walked(*store, root, entry, now_is));
        assert(trail_of(groups@, pip@, bin@) == entered(
            *store,
            y as int,
            trail_of(old(groups)@, old(pip)@, old(bin)@),
        ));
    }
    let mut a: usize = 0;
    while a < names.len()
        invariant
            a <= names.len(),
            depth >= unrecorded(*store, old(groups)@).len(),
            goal == walk(*store, depth, y as int, a as int, 0, false, trail_of(groups@, pip@, bin@)),
            store.wf(),
            y < store.modules@.len(),
            is_path(*store, root, path),
            path.last() == y,
            reaches(*store, root, y as int),
            bucket == store.modules@[y as int].version_odoo,
            bucket == store.modules@[root].version_odoo,
            entry == answer_of(old(groups)@, old(pip)@, old(bin)@),
            peers == texts(names@),
            peers == named(*store, y as int, dependency_type::MODULE),
            walked(*store, root, entry, answer_of(groups@, pip@, bin@)),
            forall|k: Seq<char>, n: Seq<char>|
                #[trigger] is_direct(*store, y as int, k, n) && peers.take(a as int).contains(n)
                    ==> holds(groups@, k, n),
            forall|n: Seq<char>| #[trigger]
                named(*store, y as int, dependency_type::PYTHON).contains(n) ==> texts(
                    pip@,
                ).contains(n),
            forall|n: Seq<char>| #[trigger]
                named(*store, y as int, dependency_type::BIN).contains(n) ==> texts(
                    bin@,
                ).contains(n),
        decreases names.len() - a,
    {
        let ghost name = peers[a as int];
        assert(name == names@[a as int]@);
        assert(peers.contains(name));
        let mut found = false;
        let mut x: usize = 0;
        while x < store.modules.len()
            invariant
                x <= store.modules.len(),
                a < names.len(),
                depth >= unrecorded(*store, old(groups)@).len(),
                goal == walk(
                    *store,
                    depth,
                    y as int,
                    a as int,
                    x as int,
                    found,
                    trail_of(groups@, pip@, bin@),
                ),
                store.wf(),
                y < store.modules@.len(),
                is_path(*store, root, path),
                path.last() == y,
                reaches(*store, root, y as int),
                bucket == store.modules@[y as int].version_odoo,
                bucket == store.modules@[root].version_odoo,
                entry == answer_of(old(groups)@, old(pip)@, old(bin)@),
                peers == texts(names@),
                peers == named(*store, y as int, dependency_type::MODULE),
                name == names@[a as int]@,
                peers.contains(name),
                walked(*store, root, entry, answer_of(groups@, pip@, bin@)),
                forall|k: Seq<char>, n: Seq<char>|
                    #[trigger] is_direct(*store, y as int, k, n) && peers.take(
                        a as int,
                    ).contains(n) ==> holds(groups@, k, n),
                forall|n: Seq<char>| #[trigger]
                    named(*store, y as int, dependency_type::PYTHON).contains(n) ==> texts(
                        pip@,
                    ).contains(n),
                forall|n: Seq<char>| #[trigger]
                    named(*store, y as int, dependency_type::BIN).contains(n) ==> texts(
                        bin@,
                    ).contains(n),
                forall|w: int|
                    0 <= w < x && #[trigger] is_home(*store, w, name, bucket) ==> holds(
                        groups@,
                        key_at(*store, w),
                        name,
                    ),
                found <==> exists|w: int| 0 <= w < x && #[trigger] is_home(*store, w, name, bucket),
            decreases store.modules.len() - x,
        {
            if store.modules[x].version_odoo == bucket && same_text(
                store.modules[x].technical_name.as_str(),
                names[a].as_str(),
            ) {
                assert(is_home(*store, x as int, name, bucket));
                let key = key_of_row(store, x);
                let ghost before = answer_of(groups@, pip@, bin@);
                let ghost was_found = found;
                let ghost trail_before = trail_of(groups@, pip@, bin@);
                found = true;
                let fresh = record(groups, key.as_str(), names[a].as_str());
                let ghost marked = answer_of(groups@, pip@, bin@);
                proof {
                    assert(is_direct(*store, y as int, key@, name));
                    lemma_pairs_after(before.groups, marked.groups, key@, name);
                    assert(trail_before.seen.contains((key@, name)) == !fresh);
                }
                if fresh {
                    proof {
                        assert(stands_for(*store, x as int, key@, name, bucket)) by {
                            assert forall|w: int|
                                0 <= w < x && #[trigger] is_home(
                                    *store,
                                    w,
                                    name,
                                    bucket,
                                ) implies key_at(*store, w) != key@ by {
                                assert(holds(before.groups, key_at(*store, w), name));
                            }
                        }
                        assert(steps_to(*store, y as int, x as int));
                        lemma_path_on(*store, root, path, x as int);
                        lemma_less_left(
                            *store,
                            entry.groups,
                            before.groups,
                            marked.groups,
                            x as int,
                        );
                    }
                    let ghost met = trail_of(groups@, pip@, bin@);
                    expand(
                        store,
                        x,
                        groups,
                        pip,
                        bin,
                        Ghost(root),
                        Ghost(path.push(x as int)),
                        Ghost((depth - 1) as nat),
                    );
                    proof {
                        assert(met == (Trail {
                            seen: trail_before.seen.insert((key@, name)),
                            pip: trail_before.pip,
                            bin: trail_before.bin,
                        }));
                        assert(goal == walk(
                            *store,
                            depth,
                            y as int,
                            a as int,
                            x + 1,
                            true,
                            trail_of(groups@, pip@, bin@),
                        ));
                        let after = answer_of(groups@, pip@, bin@);
                        lemma_walk_on(
                            *store,
                            root,
                            y as int,
                            x as int,
                            entry,
                            before,
                            marked,
                            after,
                        );
                        assert(grown(before.groups, after.groups)) by {
                            assert forall|k: Seq<char>, n: Seq<char>| #[trigger]
                                holds(before.groups, k, n) implies holds(after.groups, k, n) by {
                                assert(holds(marked.groups, k, n));
                            }
                        }
                        assert(holds(marked.groups, key@, name));
                    }
                } else {
                    proof {
                        assert(marked.groups == before.groups || grown(before.groups, marked.groups));
                        assert forall|k: Seq<char>, n: Seq<char>| #[trigger]
                            holds(marked.groups, k, n) implies holds(before.groups, k, n) by {}
                        lemma_same_answer(*store, root, entry, before, marked);
                        assert(pairs(marked.groups) =~= pairs(before.groups));
                        assert(trail_of(groups@, pip@, bin@) == trail_before);
                        assert(goal == walk(
                            *store,
                            depth,
                            y as int,
                            a as int,
                            x + 1,
                            true,
                            trail_of(groups@, pip@, bin@),
                        ));
                    }
                }
            } else {
                assert(!is_home(*store, x as int, name, bucket));
            }
            x += 1;
        }
        let ghost trail_at_end = trail_of(groups@, pip@, bin@);
        if !found {
            let ghost before = answer_of(groups@, pip@, bin@);
            let fresh = record(groups, "/", names[a].as_str());
            proof {
                lemma_pairs_after(before.groups, groups@, "/"@, name);
                assert(trail_of(groups@, pip@, bin@) == (Trail {
                    seen: trail_at_end.seen.insert(("/"@, name)),
                    pip: trail_at_end.pip,
                    bin: trail_at_end.bin,
                }));
                assert(is_direct(*store, y as int, "/"@, name));
                lemma_walk_leaf(
                    *store,
                    root,
                    y as int,
                    name,
                    entry,
                    before,
                    answer_of(groups@, pip@, bin@),
                );
            }
        }
        proof {
            assert(goal == walk(
                *store,
                depth,
                y as int,
                a + 1,
                0,
                false,
                trail_of(groups@, pip@, bin@),
            ));
            assert forall|k: Seq<char>, n: Seq<char>|
                #[trigger] is_direct(*store, y as int, k, n) && peers.take(a + 1).contains(
                    n,
                ) implies holds(groups@, k, n) by {
                crate::names::lemma_take_contains_step(peers, a as int, n);
                if n == name && !peers.take(a as int).contains(n) {
                    if exists|w: int| #[trigger] is_home(*store, w, n, bucket) && k == key_at(*store, w) {
                        let w = choose|w: int|
                            #[trigger] is_home(*store, w, n, bucket) && k == key_at(*store, w);
                        assert(holds(groups@, key_at(*store, w), name));
                    }
                }
            }
        }
        a += 1;
    }
    proof {
        assert(peers.take(names@.len() as int) =~= peers);
    }
}

/// Where nothing was recorded, the walk has made what it had made.
proof fn lemma_same_answer(store: Store, root: int, entry: Answer, before: Answer, after: Answer)
    requires
        walked(store, root, entry, before),
        well_grouped(after.groups),
        after.pip == before.pip,
        after.bin == before.bin,
        forall|k: Seq<char>, n: Seq<char>|
            #[trigger] holds(after.groups, k, n) <==> holds(before.groups, k, n),
    ensures
        walked(store, root, entry, after),
{
    let bucket = store.modules@[root].version_odoo;
    assert(grown(entry.groups, after.groups)) by {
        assert forall|k: Seq<char>, n: Seq<char>| #[trigger]
            holds(entry.groups, k, n) implies holds(after.groups, k, n) by {
            assert(holds(before.groups, k, n));
        }
    }
    assert(grown(before.groups, after.groups));
    assert(extended(before.pip, after.pip));
    assert(extended(before.bin, after.bin));
    assert forall|k: Seq<char>, n: Seq<char>, w: int|
        #[trigger] stands_for(store, w, k, n, bucket) && holds(after.groups, k, n) && !holds(
            entry.groups,
            k,
            n,
        ) implies is_covered(store, w, after.groups, after.pip, after.bin) by {
        assert(holds(before.groups, k, n));
        lemma_stays_covered(store, w, before, after);
    }
    assert forall|k: Seq<char>, n: Seq<char>|
        #[trigger] holds(after.groups, k, n) && !holds(entry.groups, k, n) implies needs_module(
        store,
        root,
        k,
        n,
    ) by {
        assert(holds(before.groups, k, n));
    }
}

/// Everything that a module on the walk needs directly is in the answer,
/// where that holds of the root and of every module that stands for a
/// recorded pair.
proof fn lemma_all_covered(store: Store, root: int, path: Seq<int>, answer: Answer)
    requires
        is_path(store, root, path),
        is_covered(store, root, answer.groups, answer.pip, answer.bin),
        forall|k: Seq<char>, n: Seq<char>, x: int|
            #[trigger] stands_for(store, x, k, n, store.modules@[root].version_odoo) && holds(
                answer.groups,
                k,
                n,
            ) ==> is_covered(store, x, answer.groups, answer.pip, answer.bin),
    ensures
        is_covered(store, path.last(), answer.groups, answer.pip, answer.bin),
    decreases path.len(),
{
    if path.len() > 1 {
        let init = path.drop_last();
        assert forall|i: int| 0 <= i < init.len() implies 0 <= #[trigger] init[i]
            < store.modules@.len() by {
            assert(init[i] == path[i]);
        }
        assert forall|i: int| 0 <= i < init.len() - 1 implies steps_to(
            store,
            #[trigger] init[i],
            init[i + 1],
        ) by {
            assert(init[i] == path[i] && init[i + 1] == path[i + 1]);
        }
        lemma_all_covered(store, root, init, answer);
        lemma_one_bucket(store, root, init);
        let y = path[path.len() - 2];
        assert(init.last() == y);
        assert(steps_to(store, y, path[path.len() - 2 + 1]));
        let (k, n) = choose|k: Seq<char>, n: Seq<char>|
            #[trigger] is_direct(store, y, k, n) && stands_for(
                store,
                path.last(),
                k,
                n,
                store.modules@[y].version_odoo,
            );
        assert(holds(answer.groups, k, n));
    }
}

/// Everything that the module at `row` needs, directly or through the
/// modules that it depends on: the peer modules under the keys of their
/// repositories, each pair once and no key without a name, and the names
/// of the packages and of the tools in the order in which the walk meets
/// them, as often as they are met. A pair that is recorded is not followed
/// again.
pub fn construct_module_dependecies_info(store: &Store, row: usize) -> (r:
    ModuleDependencyInfoResponse)
    requires
        store.wf(),
        row < store.modules@.len(),
    ensures
        well_grouped(r.odoo@),
        trail_of(r.odoo@, r.pip@, r.bin@) == closure(*store, row as int),
        forall|k: Seq<char>, n: Seq<char>|
            #[trigger] holds(r.odoo@, k, n) <==> needs_module(*store, row as int, k, n),
        forall|n: Seq<char>|
            #[trigger] texts(r.pip@).contains(n) <==> needs(
                *store,
                row as int,
                dependency_type::PYTHON,
                n,
            ),
        forall|n: Seq<char>|
            #[trigger] texts(r.bin@).contains(n) <==> needs(
                *store,
                row as int,
                dependency_type::BIN,
                n,
            ),
{
    let mut groups: Vec<(String, Vec<String>)> = Vec::new();
    let mut pip: Vec<String> = Vec::new();
    let mut bin: Vec<String> = Vec::new();
    let ghost path = seq![row as int];
    let ghost entry = answer_of(groups@, pip@, bin@);
    proof {
        assert(is_path(*store, row as int, path));
    }
    proof {
        lemma_left_at_most(*store, groups@);
        assert(pairs(groups@) =~= Set::<(Seq<char>, Seq<char>)>::empty());
        assert(texts(pip@) =~= Seq::<Seq<char>>::empty());
        assert(texts(bin@) =~= Seq::<Seq<char>>::empty());
    }
    expand(
        store,
        row,
        &mut groups,
        &mut pip,
        &mut bin,
        Ghost(row as int),
        Ghost(path),
        Ghost(all_pairs(*store).len()),
    );
    proof {
        let answer = answer_of(groups@, pip@, bin@);
        assert forall|k: Seq<char>, n: Seq<char>| !holds(entry.groups, k, n) by {}
        assert forall|n: Seq<char>| !entry.pip.contains(n) by {}
        assert forall|n: Seq<char>| !entry.bin.contains(n) by {}
        assert forall|k: Seq<char>, n: Seq<char>|
            #[trigger] holds(groups@, k, n) <==> needs_module(*store, row as int, k, n) by {
            if needs_module(*store, row as int, k, n) {
                let x = choose|x: int|
                    #[trigger] reaches(*store, row as int, x) && is_direct(*store, x, k, n);
                let p = choose|p: Seq<int>| #[trigger] is_path(*store, row as int, p) && p.last() == x;
                lemma_all_covered(*store, row as int, p, answer);
            }
            if holds(groups@, k, n) {
                assert(holds(answer.groups, k, n) && !holds(entry.groups, k, n));
            }
        }
        assert forall|n: Seq<char>|
            #[trigger] texts(pip@).contains(n) <==> needs(
                *store,
                row as int,
                dependency_type::PYTHON,
                n,
            ) by {
            if needs(*store, row as int, dependency_type::PYTHON, n) {
                let x = choose|x: int|
                    #[trigger] reaches(*store, row as int, x) && named(
                        *store,
                        x,
                        dependency_type::PYTHON,
                    ).contains(n);
                let p = choose|p: Seq<int>| #[trigger] is_path(*store, row as int, p) && p.last() == x;
                lemma_all_covered(*store, row as int, p, answer);
            }
            if texts(pip@).contains(n) {
                assert(answer.pip.contains(n) && !entry.pip.contains(n));
            }
        }
        assert forall|n: Seq<char>|
            #[trigger] texts(bin@).contains(n) <==> needs(
                *store,
                row as int,
                dependency_type::BIN,
                n,
            ) by {
            if needs(*store, row as int, dependency_type::BIN, n) {
                let x = choose|x: int|
                    #[trigger] reaches(*store, row as int, x) && named(
                        *store,
                        x,
                        dependency_type::BIN,
                    ).contains(n);
                let p = choose|p: Seq<int>| #[trigger] is_path(*store, row as int, p) && p.last() == x;
                lemma_all_covered(*store, row as int, p, answer);
            }
            if texts(bin@).contains(n) {
                assert(answer.bin.contains(n) && !entry.bin.contains(n));
            }
        }
    }
    ModuleDependencyInfoResponse { odoo: groups, pip, bin }
}

/// Everything that the catalog knows of one module.
#[derive(Debug)]
pub struct ModuleFullInfoResponse {
    pub technical_name: String,
    pub name: String,
    pub version: String,
    pub description: String,
    pub authors: Vec<String>,
    pub website: String,
    pub license: String,
    pub category: String,
    pub auto_install: bool,
    pub application: bool,
    pub installable: bool,
    pub maintainers: Vec<String>,
    pub dependencies: ModuleDependencyInfoResponse,
    pub update_date: String,
    pub git: String,
    pub folder_size: u64,
    pub repository: String,
    pub organization: String,
}

/// Where a technical name is found: in which buckets, and in which
/// repositories.
#[derive(Debug)]
pub struct ModuleGenericInfoResponse {
    pub name: String,
    pub technical_name: String,
    pub odoo_versions: Vec<String>,
    pub repos: Vec<String>,
}

/// What a request for a module may narrow the answer to.
#[derive(Debug)]
pub struct RouteModuleRequest {
    pub org: Option<String>,
    pub repo: Option<String>,
}

/// Where the repository `repo` of the organization `org` is cloned from.
pub open spec fn git_address(org: Seq<char>, repo: Seq<char>) -> Seq<char> {
    "https://github.com/"@ + org + "/"@ + repo + ".git"@
}

fn git_url(org: &str, repo: &str) -> (r: String)
    ensures
        r@ == git_address(org@, repo@),
{
    let mut r = String::new();
    r.append("https://github.com/");
    r.append(org);
    r.append("/");
    r.append(repo);
    r.append(".git");
    assert(r@ =~= git_address(org@, repo@));
    r
}

/// The organization of the module at `row`.
pub open spec fn organization_at(store: Store, row: int) -> Seq<char> {
    gh_repository::org_name_of(store.repositories@, store.modules@[row].gh_repository_id.0)
}

/// Where the repository of the module at `row` is cloned from.
pub fn get_module_git(store: &Store, row: usize) -> (r: String)
    requires
        store.wf(),
        row < store.modules@.len(),
    ensures
        r@ == git_address(
            organization_at(*store, row as int),
            store.modules@[row as int].gh_repository_id.1@,
        ),
{
    let org = module::organization_of(store, row);
    git_url(org.as_str(), store.modules[row].gh_repository_id.1.as_str())
}

/// Whether `info` is everything that the catalog knows of the module at
/// `row`: its fields, its authors and maintainers, where it lives, and what
/// it needs, directly or through the modules that it depends on, each
/// package and each tool once.
pub open spec fn answers(info: ModuleFullInfoResponse, store: Store, row: int) -> bool {
    let m = store.modules@[row];
    &&& info.technical_name@ == m.technical_name@
    &&& info.name@ == m.name@
    &&& info.version@ == m.version_module@
    &&& info.description@ == m.description@
    &&& info.website@ == m.website@
    &&& info.license@ == m.license@
    &&& info.category@ == m.category@
    &&& info.auto_install == m.auto_install
    &&& info.application == m.application
    &&& info.installable == m.installable
    &&& info.update_date@ == m.update_date@
    &&& info.folder_size == m.folder_size
    &&& info.repository@ == m.gh_repository_id.1@
    &&& info.organization@ == organization_at(store, row)
    &&& info.git@ == git_address(organization_at(store, row), m.gh_repository_id.1@)
    &&& texts(info.authors@) == module_author::names_of_module(store.module_authors@, m.id)
    &&& texts(info.maintainers@) == module_maintainer::names_of_module(
        store.module_maintainers@,
        m.id,
    )
    &&& well_grouped(info.dependencies.odoo@)
    &&& forall|k: Seq<char>, n: Seq<char>|
        #[trigger] holds(info.dependencies.odoo@, k, n) <==> needs_module(store, row, k, n)
    &&& pairs(info.dependencies.odoo@) == closure(store, row).seen
    &&& texts(info.dependencies.pip@) == first_seen(closure(store, row).pip)
    &&& texts(info.dependencies.bin@) == first_seen(closure(store, row).bin)
    &&& distinct(texts(info.dependencies.pip@))
    &&& distinct(texts(info.dependencies.bin@))
    &&& forall|n: Seq<char>|
        #[trigger] texts(info.dependencies.pip@).contains(n) <==> needs(
            store,
            row,
            dependency_type::PYTHON,
            n,
        )
    &&& forall|n: Seq<char>|
        #[trigger] texts(info.dependencies.bin@).contains(n) <==> needs(
            store,
            row,
            dependency_type::BIN,
            n,
        )
}

/// Everything that the catalog knows of the module at `row`.
pub fn full_info(store: &Store, row: usize) -> (r: ModuleFullInfoResponse)
    requires
        store.wf(),
        row < store.modules@.len(),
    ensures
        answers(r, *store, row as int),
{
    let m = &store.modules[row];
    let found = construct_module_dependecies_info(store, row);
    let pip = without_repeats(&found.pip);
    let bin = without_repeats(&found.bin);
    let dependencies = ModuleDependencyInfoResponse { odoo: found.odoo, pip, bin };
    let organization = module::organization_of(store, row);
    ModuleFullInfoResponse {
        technical_name: m.technical_name.clone(),
        name: m.name.clone(),
        version: m.version_module.clone(),
        description: m.description.clone(),
        authors: module_author::get_names_by_module_id(store, &m.id),
        website: m.website.clone(),
        license: m.license.clone(),
        category: m.category.clone(),
        auto_install: m.auto_install,
        application: m.application,
        installable: m.installable,
        maintainers: module_maintainer::get_names_by_module_id(store, &m.id),
        dependencies,
        update_date: m.update_date.clone(),
        git: get_module_git(store, row),
        folder_size: m.folder_size,
        repository: m.gh_repository_id.1.clone(),
        organization,
    }
}

/// Whether `info` is everything that the catalog knows of its row `m`.
pub open spec fn answers_for(info: ModuleFullInfoResponse, store: Store, m: module::Model) -> bool {
    exists|row: int|
        0 <= row < store.modules@.len() && #[trigger] store.modules@[row] == m && answers(
            info,
            store,
            row,
        )
}

/// Everything that the catalog knows of each of `modules`, which are rows
/// of the catalog.
pub fn process_modules_db(store: &Store, modules: &Vec<module::Model>) -> (r: Vec<
    ModuleFullInfoResponse,
>)
    requires
        store.wf(),
        forall|i: int| 0 <= i < modules@.len() ==> store.modules@.contains(#[trigger] modules@[i]),
    ensures
        r@.len() == modules@.len(),
        forall|i: int| 0 <= i < r@.len() ==> answers_for(#[trigger] r@[i], *store, modules@[i]),
{
    let mut r: Vec<ModuleFullInfoResponse> = Vec::new();
    let mut i: usize = 0;
    while i < modules.len()
        invariant
            i <= modules.len(),
            store.wf(),
            forall|k: int|
                0 <= k < modules@.len() ==> store.modules@.contains(#[trigger] modules@[k]),
            r@.len() == i,
            forall|k: int| 0 <= k < i ==> answers_for(#[trigger] r@[k], *store, modules@[k]),
        decreases modules.len() - i,
    {
        proof {
            assert(store.modules@.contains(modules@[i as int]));
            let w = choose|w: int|
                0 <= w < store.modules@.len() && store.modules@[w] == modules@[i as int];
            assert(store.modules@[w].id == modules@[i as int].id);
        }
        let found = module::position_of_id(store, &modules[i].id);
        let row = found.unwrap();
        proof {
            let w = choose|w: int|
                0 <= w < store.modules@.len() && store.modules@[w] == modules@[i as int];
            if w < row {
                assert(store.modules@[w].id != store.modules@[row as int].id);
            } else if row < w {
                assert(store.modules@[row as int].id != store.modules@[w].id);
            }
        }
        let ghost before = r@;
        r.push(full_info(store, row));
        proof {
            assert forall|k: int| 0 <= k < before.len() implies r@[k] == before[k] by {}
            assert(store.modules@[row as int] == modules@[i as int]);
        }
        i += 1;
    }
    r
}

/// The buckets of `infos` as texts, one for one.
pub open spec fn bucket_texts(infos: Seq<module::ModuleInfo>) -> Seq<Seq<char>> {
    Seq::new(infos.len(), |i: int| odoo_version_text(infos[i].version_odoo))
}

/// Where the repositories of `infos` are cloned from, one for one.
pub open spec fn git_addresses(infos: Seq<module::ModuleInfo>) -> Seq<Seq<char>> {
    Seq::new(infos.len(), |i: int| git_address(infos[i].organization@, infos[i].repository@))
}

/// Where a technical name is found, given the modules `infos` of that name:
/// nothing where there is none; else the display name of the first, the
/// bucket of each, and the address of each repository, once.
pub fn generic_info_of(infos: &Vec<module::ModuleInfo>) -> (r: Option<ModuleGenericInfoResponse>)
    ensures
        r is Some <==> infos@.len() > 0,
        r matches Some(g) ==> {
            &&& g.name@ == infos@[0].name@
            &&& g.technical_name@ == infos@[0].technical_name@
            &&& texts(g.odoo_versions@) == bucket_texts(infos@)
            &&& texts(g.repos@) == first_seen(git_addresses(infos@))
        },
{
    if infos.len() == 0 {
        return None;
    }
    let mut odoo_versions: Vec<String> = Vec::new();
    let mut repos: Vec<String> = Vec::new();
    let mut i: usize = 0;
    while i < infos.len()
        invariant
            i <= infos.len(),
            texts(odoo_versions@) == bucket_texts(infos@).take(i as int),
            texts(repos@) == git_addresses(infos@).take(i as int),
        decreases infos.len() - i,
    {
        let ghost v = odoo_versions@;
        let ghost g = repos@;
        odoo_versions.push(odoo_version_u8_to_string(&infos[i].version_odoo));
        repos.push(git_url(infos[i].organization.as_str(), infos[i].repository.as_str()));
        proof {
            assert(texts(odoo_versions@) =~= texts(v).push(
                odoo_version_text(infos@[i as int].version_odoo),
            ));
            assert(texts(odoo_versions@) =~= bucket_texts(infos@).take(i + 1));
            assert(texts(repos@) =~= texts(g).push(
                git_address(infos@[i as int].organization@, infos@[i as int].repository@),
            ));
            assert(texts(repos@) =~= git_addresses(infos@).take(i + 1));
        }
        i += 1;
    }
    proof {
        assert(bucket_texts(infos@).take(infos@.len() as int) =~= bucket_texts(infos@));
        assert(git_addresses(infos@).take(infos@.len() as int) =~= git_addresses(infos@));
    }
    Some(
        ModuleGenericInfoResponse {
            name: infos[0].name.clone(),
            technical_name: infos[0].technical_name.clone(),
            odoo_versions,
            repos: without_repeats(&repos),
        },
    )
}

/// The buckets of the rows `rows` as texts, one for one.
pub open spec fn versions_of(rows: Seq<module::Model>) -> Seq<Seq<char>> {
    Seq::new(rows.len(), |i: int| odoo_version_text(rows[i].version_odoo))
}

/// Where the repository of each of the rows `rows` is cloned from, one for
/// one.
pub open spec fn addresses_of(store: Store, rows: Seq<module::Model>) -> Seq<Seq<char>> {
    Seq::new(
        rows.len(),
        |i: int|
            git_address(
                gh_repository::org_name_of(store.repositories@, rows[i].gh_repository_id.0),
                rows[i].gh_repository_id.1@,
            ),
    )
}

/// Where the technical name `module_name` is found: nothing where no
/// module has the name; else the display name of the first module of that
/// name, the bucket of each in the order of the rows, and the address of
/// each repository, once, in the order in which they are first met.
pub fn get_module_generic_info(store: &Store, module_name: &str) -> (r: Option<
    ModuleGenericInfoResponse,
>)
    requires
        store.wf(),
    ensures
        r is Some <==> module::is_named(store.modules@, module_name@),
        r matches Some(g) ==> {
            let rows = module::with_name(store.modules@, module_name@);
            &&& rows.len() > 0
            &&& g.technical_name@ == module_name@
            &&& g.name@ == rows[0].name@
            &&& texts(g.odoo_versions@) == versions_of(rows)
            &&& texts(g.repos@) == first_seen(addresses_of(*store, rows))
        },
{
    let infos = module::get_info(store, module_name);
    proof {
        lemma_with_name(store.modules@, module_name@);
        let rows = module::with_name(store.modules@, module_name@);
        assert(bucket_texts(infos@) =~= versions_of(rows));
        assert(git_addresses(infos@) =~= addresses_of(*store, rows));
    }
    generic_info_of(&infos)
}

/// There are rows named `name` where a module has the name, and each of
/// them has it.
pub proof fn lemma_with_name(rows: Seq<module::Model>, name: Seq<char>)
    ensures
        module::with_name(rows, name).len() > 0 <==> module::is_named(rows, name),
        forall|k: int|
            0 <= k < module::with_name(rows, name).len() ==> (#[trigger] module::with_name(
                rows,
                name,
            )[k]).technical_name@ == name,
    decreases rows.len(),
{
    if rows.len() > 0 {
        let init = rows.drop_last();
        lemma_with_name(init, name);
        if module::is_named(init, name) {
            let j = choose|j: int| 0 <= j < init.len() && (#[trigger] init[j]).technical_name@ == name;
            assert(rows[j] == init[j]);
        }
        if module::is_named(rows, name) {
            let j = choose|j: int| 0 <= j < rows.len() && (#[trigger] rows[j]).technical_name@ == name;
            if j < rows.len() - 1 {
                assert(init[j] == rows[j]);
            } else {
                assert(rows.last() == rows[j]);
            }
        }
        if rows.last().technical_name@ == name {
            assert(rows[rows.len() - 1].technical_name@ == name);
            let all = module::with_name(rows, name);
            let before = module::with_name(init, name);
            assert forall|k: int| 0 <= k < all.len() implies (#[trigger] all[k]).technical_name@
                == name by {
                if k < before.len() {
                    assert(all[k] == before[k]);
                }
            }
        }
    }
}

/// A text that may be there, as a plain value.
pub open spec fn text_of(field: Option<String>) -> Option<Seq<char>> {
    match field {
        Some(s) => Some(s@),
        None => None,
    }
}

/// Whether the row `m` is the module `name` of the bucket `version_odoo`,
/// in the organization `org` and the repository `repo` as far as they are
/// given.
pub open spec fn is_asked(
    store: Store,
    m: module::Model,
    name: Seq<char>,
    version_odoo: u8,
    org: Option<Seq<char>>,
    repo: Option<Seq<char>>,
) -> bool {
    &&& m.technical_name@ == name
    &&& m.version_odoo == version_odoo
    &&& org matches Some(o) ==> gh_repository::org_name_of(
        store.repositories@,
        m.gh_repository_id.0,
    ) == o
    &&& repo matches Some(r) ==> m.gh_repository_id.1@ == r
}

/// The rows of the module `name` of the bucket `version_odoo`, narrowed to
/// the organization `org` and the repository `repo` as far as they are
/// given.
pub open spec fn asked(
    store: Store,
    name: Seq<char>,
    version_odoo: u8,
    org: Option<Seq<char>>,
    repo: Option<Seq<char>>,
) -> Seq<module::Model> {
    module::chosen(
        store.modules@,
        |m: module::Model| is_asked(store, m, name, version_odoo, org, repo),
    )
}

/// Two ways of choosing that want the same rows choose the same.
pub proof fn lemma_chosen_alike(
    rows: Seq<module::Model>,
    f: spec_fn(module::Model) -> bool,
    g: spec_fn(module::Model) -> bool,
)
    requires
        forall|m: module::Model| #[trigger] f(m) == g(m),
    ensures
        module::chosen(rows, f) == module::chosen(rows, g),
    decreases rows.len(),
{
    if rows.len() > 0 {
        lemma_chosen_alike(rows.drop_last(), f, g);
    }
}

/// The rows that a request for the module `module_name` of the bucket
/// `version_odoo` asks for.
pub fn rows_asked(store: &Store, module_name: &str, version_odoo: &u8, info: &RouteModuleRequest) -> (r:
    Vec<module::Model>)
    requires
        store.wf(),
    ensures
        r@ == asked(*store, module_name@, *version_odoo, text_of(info.org), text_of(info.repo)),
        forall|i: int| 0 <= i < r@.len() ==> store.modules@.contains(#[trigger] r@[i]),
{
    let ghost want = |m: module::Model|
        is_asked(*store, m, module_name@, *version_odoo, text_of(info.org), text_of(info.repo));
    let r = match (&info.org, &info.repo) {
        (Some(org_name), Some(repo_name)) => {
            let r =
                module::get_by_technical_name_odoo_version_organization_name_repository_name(
                store,
                module_name,
                version_odoo,
                org_name.as_str(),
                repo_name.as_str(),
            );
            proof {
                lemma_chosen_alike(
                    store.modules@,
                    |m: module::Model|
                        m.technical_name@ == module_name@ && m.version_odoo == *version_odoo
                            && m.gh_repository_id.1@ == repo_name@ && gh_repository::org_name_of(
                            store.repositories@,
                            m.gh_repository_id.0,
                        ) == org_name@,
                    want,
                );
            }
            r
        },
        (Some(org_name), None) => {
            let r = module::get_by_technical_name_odoo_version_organization_name(
                store,
                module_name,
                version_odoo,
                org_name.as_str(),
            );
            proof {
                lemma_chosen_alike(
                    store.modules@,
                    |m: module::Model|
                        m.technical_name@ == module_name@ && m.version_odoo == *version_odoo
                            && gh_repository::org_name_of(
                            store.repositories@,
                            m.gh_repository_id.0,
                        ) == org_name@,
                    want,
                );
            }
            r
        },
        (None, Some(repo_name)) => {
            let r = module::get_by_technical_name_odoo_version_repository_name(
                store,
                module_name,
                version_odoo,
                repo_name.as_str(),
            );
            proof {
                lemma_chosen_alike(
                    store.modules@,
                    |m: module::Model|
                        m.technical_name@ == module_name@ && m.version_odoo == *version_odoo
                            && m.gh_repository_id.1@ == repo_name@,
                    want,
                );
            }
            r
        },
        (None, None) => {
            let r = module::get_by_technical_name_odoo_version(store, module_name, version_odoo);
            proof {
                lemma_chosen_alike(
                    store.modules@,
                    |m: module::Model|
                        m.technical_name@ == module_name@ && m.version_odoo == *version_odoo,
                    want,
                );
            }
            r
        },
    };
    proof {
        assert forall|i: int| 0 <= i < r@.len() implies store.modules@.contains(
            #[trigger] r@[i],
        ) by {
            assert(r@.contains(r@[i]));
            module::lemma_chosen(store.modules@, want, r@[i]);
        }
    }
    r
}

/// Everything that the catalog knows of the module `module_name` of the
/// bucket `version_odoo`, in each repository that the request leaves in.
pub fn modules_asked(store: &Store, module_name: &str, version_odoo: &u8, info: &RouteModuleRequest) -> (r:
    Vec<ModuleFullInfoResponse>)
    requires
        store.wf(),
    ensures
        r@.len() == asked(
            *store,
            module_name@,
            *version_odoo,
            text_of(info.org),
            text_of(info.repo),
        ).len(),
        forall|i: int|
            0 <= i < r@.len() ==> answers_for(
                #[trigger] r@[i],
                *store,
                asked(
                    *store,
                    module_name@,
                    *version_odoo,
                    text_of(info.org),
                    text_of(info.repo),
                )[i],
            ),
{
    let rows = rows_asked(store, module_name, version_odoo, info);
    process_modules_db(store, &rows)
}

} // verus!
