//! Dependencies: what modules need. A dependency is a kind and a name, and
//! each such pair is kept once.

use crate::models::dependency_module;
use crate::models::dependency_type;
use crate::models::gh_repository;
use crate::models::module;
use crate::models::store::Store;
use crate::text::{same_text, texts};
use vstd::string::*;
use vstd::prelude::*;

verus! {

/// A dependency. `dependency_type_id` is the number of its kind and a copy of
/// the kind's name.
#[derive(Debug)]
pub struct Model {
    pub id: i64,
    pub dependency_type_id: (i64, String),
    pub name: String,
}

/// A module that another one depends on, and where it lives. Where the
/// catalog has no module of that name in the bucket, `org` and `repo` are
/// empty.
#[derive(Debug)]
pub struct DependencyModuleInfo {
    pub org: String,
    pub repo: String,
    pub technical_name: String,
}

impl Model {
    /// A copy of the row.
    pub fn duplicate(&self) -> (r: Model)
        ensures
            r == *self,
    {
        Model {
            id: self.id,
            dependency_type_id: (self.dependency_type_id.0, self.dependency_type_id.1.clone()),
            name: self.name.clone(),
        }
    }
}

/// Identities lie in `1..=last_id`.
pub open spec fn ids_below(rows: Seq<Model>, last_id: i64) -> bool {
    forall|i: int| 0 <= i < rows.len() ==> 0 < (#[trigger] rows[i]).id <= last_id
}

/// No identity occurs twice, no name twice under one kind, and every kind is
/// one of the three.
pub open spec fn well_keyed(rows: Seq<Model>) -> bool {
    &&& forall|i: int, j: int|
        0 <= i < j < rows.len() ==> (#[trigger] rows[i]).id != (#[trigger] rows[j]).id
    &&& forall|i: int, j: int|
        0 <= i < j < rows.len() ==> !((#[trigger] rows[i]).name@ == (#[trigger] rows[j]).name@
            && rows[i].dependency_type_id.0 == rows[j].dependency_type_id.0)
    &&& forall|i: int|
        0 <= i < rows.len() ==> dependency_type::is_id((#[trigger] rows[i]).dependency_type_id.0)
            && rows[i].dependency_type_id.1@ == dependency_type::name_of(
            rows[i].dependency_type_id.0,
        )
}

/// Whether a row of `rows` has the identity `id`.
pub open spec fn has_id(rows: Seq<Model>, id: i64) -> bool {
    exists|i: int| 0 <= i < rows.len() && (#[trigger] rows[i]).id == id
}

/// Whether a row of `rows` has the identity `id` and the name `name`.
pub open spec fn has(rows: Seq<Model>, id: i64, name: Seq<char>) -> bool {
    exists|i: int| 0 <= i < rows.len() && (#[trigger] rows[i]).id == id && rows[i].name@ == name
}

/// A row that `rows` has, it still has after one more row.
pub proof fn lemma_has_after_push(rows: Seq<Model>, r: Model, id: i64, name: Seq<char>)
    requires
        has(rows, id, name),
    ensures
        has(rows.push(r), id, name),
{
    let i = choose|i: int| 0 <= i < rows.len() && (#[trigger] rows[i]).id == id && rows[i].name@ == name;
    assert(rows.push(r)[i] == rows[i]);
}

/// A row of `rows` is had by its identity and name.
pub proof fn lemma_has_row(rows: Seq<Model>, i: int)
    requires
        0 <= i < rows.len(),
    ensures
        has(rows, rows[i].id, rows[i].name@),
        has_id(rows, rows[i].id),
{
}

/// Whether a row of `rows` is of the kind `dep_type_id` and named `name`.
pub open spec fn has_name(rows: Seq<Model>, dep_type_id: i64, name: Seq<char>) -> bool {
    exists|i: int|
        0 <= i < rows.len() && (#[trigger] rows[i]).name@ == name && rows[i].dependency_type_id.0
            == dep_type_id
}

/// The kind of the dependency with the identity `id`.
pub open spec fn kind_of(rows: Seq<Model>, id: i64) -> i64 {
    let i = choose|i: int| 0 <= i < rows.len() && (#[trigger] rows[i]).id == id;
    rows[i].dependency_type_id.0
}

/// The kind of a row's identity is the row's kind.
pub proof fn lemma_kind_of(rows: Seq<Model>, i: int)
    requires
        well_keyed(rows),
        0 <= i < rows.len(),
    ensures
        kind_of(rows, rows[i].id) == rows[i].dependency_type_id.0,
{
    let k = choose|k: int| 0 <= k < rows.len() && (#[trigger] rows[k]).id == rows[i].id;
    if k < i {
        assert(rows[k].id != rows[i].id);
    } else if i < k {
        assert(rows[i].id != rows[k].id);
    }
}

/// One more row changes the kind of no identity that the rows had.
pub proof fn lemma_kind_of_after_push(rows: Seq<Model>, r: Model, id: i64)
    requires
        well_keyed(rows.push(r)),
        has_id(rows, id),
    ensures
        kind_of(rows.push(r), id) == kind_of(rows, id),
{
    let i = choose|i: int| 0 <= i < rows.len() && (#[trigger] rows[i]).id == id;
    assert(rows.push(r)[i] == rows[i]);
    lemma_kind_of(rows.push(r), i);
    assert forall|a: int, b: int| 0 <= a < b < rows.len() implies (#[trigger] rows[a]).id != (
    #[trigger] rows[b]).id by {
        assert(rows.push(r)[a] == rows[a]);
        assert(rows.push(r)[b] == rows[b]);
    }
    let k = choose|k: int| 0 <= k < rows.len() && (#[trigger] rows[k]).id == id;
    if k < i {
        assert(rows[k].id != rows[i].id);
    } else if i < k {
        assert(rows[i].id != rows[k].id);
    }
}

/// The dependency with the identity `id`.
pub fn get_by_id(store: &Store, id: &i64) -> (r: Option<Model>)
    ensures
        r is Some <==> has_id(store.dependencies@, *id),
        r matches Some(m) ==> store.dependencies@.contains(m) && m.id == *id,
{
    let mut i: usize = 0;
    while i < store.dependencies.len()
        invariant
            i <= store.dependencies.len(),
            forall|k: int| 0 <= k < i ==> (#[trigger] store.dependencies@[k]).id != *id,
        decreases store.dependencies.len() - i,
    {
        if store.dependencies[i].id == *id {
            return Some(store.dependencies[i].duplicate());
        }
        i += 1;
    }
    None
}

/// The dependency of the kind `dep_type_id` named `name`.
pub fn get_by_name(store: &Store, dep_type_id: &i64, name: &str) -> (r: Option<Model>)
    ensures
        r is Some <==> has_name(store.dependencies@, *dep_type_id, name@),
        r matches Some(m) ==> store.dependencies@.contains(m) && m.name@ == name@
            && m.dependency_type_id.0 == *dep_type_id,
{
    let mut i: usize = 0;
    while i < store.dependencies.len()
        invariant
            i <= store.dependencies.len(),
            forall|k: int|
                0 <= k < i ==> !((#[trigger] store.dependencies@[k]).name@ == name@
                    && store.dependencies@[k].dependency_type_id.0 == *dep_type_id),
        decreases store.dependencies.len() - i,
    {
        if store.dependencies[i].dependency_type_id.0 == *dep_type_id && same_text(
            store.dependencies[i].name.as_str(),
            name,
        ) {
            return Some(store.dependencies[i].duplicate());
        }
        i += 1;
    }
    None
}

/// The dependency of the kind `dep_type_id` named `name`, entered first where
/// the catalog has none.
pub fn add(store: &mut Store, dep_type_id: &i64, name: &str) -> (r: Model)
    requires
        old(store).wf(),
        old(store).last_id < i64::MAX,
        dependency_type::is_id(*dep_type_id),
    ensures
        final(store).wf(),
        r.name@ == name@,
        r.dependency_type_id.0 == *dep_type_id,
        final(store).dependencies@.contains(r),
        has_name(old(store).dependencies@, *dep_type_id, name@) ==> *final(store) == *old(store),
        !has_name(old(store).dependencies@, *dep_type_id, name@) ==> {
            &&& r.id == old(store).last_id + 1
            &&& final(store).dependencies@ == old(store).dependencies@.push(r)
            &&& *final(store) == (Store {
                dependencies: final(store).dependencies,
                last_id: r.id,
                ..*old(store)
            })
        },
{
    match get_by_name(store, dep_type_id, name) {
        Some(found) => found,
        None => {
            let id = store.fresh_id();
            let row = Model {
                id,
                dependency_type_id: (
                    *dep_type_id,
                    dependency_type::name_text(*dep_type_id).to_owned(),
                ),
                name: name.to_owned(),
            };
            let r = row.duplicate();
            store.dependencies.push(row);
            assert(store.dependencies@[store.dependencies@.len() - 1] == r);
            proof {
                dependency_module::lemma_linked_after_push(
                    store.dependency_modules@,
                    old(store).dependencies@,
                    r,
                );
            }
            r
        },
    }
}

/// The names of the dependencies of the kind named `dep_type` of the module
/// `module_id`; none where `dep_type` names no kind.
pub fn get_module_external_dependency_names(store: &Store, module_id: &i64, dep_type: &str) -> (r:
    Vec<String>)
    requires
        store.wf(),
    ensures
        texts(r@) == direct_names(*store, *module_id, dep_type@),
{
    match dependency_type::get_by_name(dep_type) {
        Some(kind) => {
            proof {
                kind_named_once(kind.id, dep_type@);
            }
            dependency_module::get_names(store, module_id, &kind.id)
        },
        None => {
            let r: Vec<String> = Vec::new();
            assert(texts(r@) =~= Seq::<Seq<char>>::empty());
            r
        },
    }
}

/// The number of the kind named `name`, 0 where no kind has that name.
pub open spec fn kind_named(name: Seq<char>) -> i64 {
    if name == dependency_type::name_of(1) {
        1
    } else if name == dependency_type::name_of(2) {
        2
    } else if name == dependency_type::name_of(3) {
        3
    } else {
        0
    }
}

/// The three kinds have three names.
pub proof fn kind_named_once(id: i64, name: Seq<char>)
    requires
        dependency_type::is_id(id),
        dependency_type::name_of(id) == name,
    ensures
        kind_named(name) == id,
{
    reveal_strlit("module");
    reveal_strlit("python");
    reveal_strlit("bin");
    assert("module"@[0] == 'm');
    assert("python"@[0] == 'p');
    assert("bin"@[0] == 'b');
}

/// The names of the dependencies of the kind named `dep_type` of the module
/// `module_id`, in the order of the edges.
pub open spec fn direct_names(store: Store, module_id: i64, dep_type: Seq<char>) -> Seq<Seq<char>> {
    if kind_named(dep_type) == 0 {
        Seq::<Seq<char>>::empty()
    } else {
        dependency_module::names_of_module(
            store.dependency_modules@,
            store.dependencies@,
            module_id,
            kind_named(dep_type),
        )
    }
}

/// Where a peer module lives: the key of its repository, its technical name,
/// and the place of its row among the modules; -1 for a name that no module
/// of the bucket has.
pub struct Home {
    pub key: Seq<char>,
    pub name: Seq<char>,
    pub row: int,
}

/// The key of the repository of the module `m`: its organization, a stroke,
/// its name.
pub open spec fn repository_key(repositories: Seq<gh_repository::Model>, m: module::Model) -> Seq<
    char,
> {
    gh_repository::org_name_of(repositories, m.gh_repository_id.0) + "/"@ + m.gh_repository_id.1@
}

/// The modules of the bucket `bucket` that are named `name`, among the first
/// `n` rows, each with its repository.
pub open spec fn homes(store: Store, name: Seq<char>, bucket: u8, n: int) -> Seq<Home>
    decreases n,
{
    if n <= 0 || n > store.modules@.len() {
        Seq::<Home>::empty()
    } else {
        let init = homes(store, name, bucket, n - 1);
        let x = store.modules@[n - 1];
        if x.technical_name@ == name && x.version_odoo == bucket {
            init.push(Home { key: repository_key(store.repositories@, x), name, row: n - 1 })
        } else {
            init
        }
    }
}

/// What the name `name` resolves to in the bucket `bucket`: the modules of
/// that name, or the name alone, under the key of no repository, where the
/// bucket has no module of that name.
pub open spec fn resolutions(store: Store, name: Seq<char>, bucket: u8) -> Seq<Home> {
    let found = homes(store, name, bucket, store.modules@.len() as int);
    if found.len() == 0 {
        seq![Home { key: "/"@, name, row: -1 }]
    } else {
        found
    }
}

/// What the names `names` resolve to in the bucket `bucket`, one name after
/// another.
pub open spec fn resolved(store: Store, names: Seq<Seq<char>>, bucket: u8) -> Seq<Home>
    decreases names.len(),
{
    if names.len() == 0 {
        Seq::<Home>::empty()
    } else {
        resolved(store, names.drop_last(), bucket) + resolutions(store, names.last(), bucket)
    }
}

/// The peer modules that the module at `row` depends on directly, each
/// where it lives.
pub open spec fn direct(store: Store, row: int) -> Seq<Home> {
    resolved(
        store,
        dependency_module::names_of_module(
            store.dependency_modules@,
            store.dependencies@,
            store.modules@[row].id,
            dependency_type::MODULE,
        ),
        store.modules@[row].version_odoo,
    )
}

/// Each of the modules named `name` that are listed lives where the list
/// says.
pub proof fn lemma_homes(store: Store, name: Seq<char>, bucket: u8, n: int, i: int)
    requires
        0 <= i < homes(store, name, bucket, n).len(),
    ensures
        ({
            let h = homes(store, name, bucket, n)[i];
            &&& 0 <= h.row < n <= store.modules@.len()
            &&& h.name == name
            &&& store.modules@[h.row].technical_name@ == name
            &&& store.modules@[h.row].version_odoo == bucket
            &&& h.key == repository_key(store.repositories@, store.modules@[h.row])
        }),
    decreases n,
{
    if n > 0 && n <= store.modules@.len() {
        let init = homes(store, name, bucket, n - 1);
        if i < init.len() {
            lemma_homes(store, name, bucket, n - 1, i);
        }
    }
}

/// Where no module is listed for a name, no module of the bucket has the
/// name.
pub proof fn lemma_no_home(store: Store, name: Seq<char>, bucket: u8, n: int)
    requires
        0 <= n <= store.modules@.len(),
        homes(store, name, bucket, n).len() == 0,
    ensures
        forall|j: int|
            0 <= j < n ==> !((#[trigger] store.modules@[j]).technical_name@ == name
                && store.modules@[j].version_odoo == bucket),
    decreases n,
{
    if n > 0 {
        lemma_no_home(store, name, bucket, n - 1);
    }
}

/// Each of the resolutions of some names is a module where the list says,
/// or a name without a module under the key of no repository.
pub proof fn lemma_resolved(store: Store, names: Seq<Seq<char>>, bucket: u8, i: int)
    requires
        0 <= i < resolved(store, names, bucket).len(),
    ensures
        ({
            let h = resolved(store, names, bucket)[i];
            &&& names.contains(h.name)
            &&& -1 <= h.row < store.modules@.len()
            &&& h.row >= 0 ==> store.modules@[h.row].technical_name@ == h.name
                && store.modules@[h.row].version_odoo == bucket && h.key == repository_key(
                store.repositories@,
                store.modules@[h.row],
            )
            &&& h.row < 0 ==> h.key == "/"@ && forall|j: int|
                0 <= j < store.modules@.len() ==> !((#[trigger] store.modules@[j]).technical_name@
                    == h.name && store.modules@[j].version_odoo == bucket)
        }),
    decreases names.len(),
{
    if names.len() > 0 {
        let init = resolved(store, names.drop_last(), bucket);
        if i < init.len() {
            lemma_resolved(store, names.drop_last(), bucket, i);
            let h = init[i];
            let k = choose|k: int| 0 <= k < names.drop_last().len() && names.drop_last()[k] == h.name;
            assert(names[k] == h.name);
        } else {
            let found = homes(store, names.last(), bucket, store.modules@.len() as int);
            assert(names[names.len() - 1] == names.last());
            if found.len() > 0 {
                lemma_homes(
                    store,
                    names.last(),
                    bucket,
                    store.modules@.len() as int,
                    i - init.len(),
                );
            } else {
                lemma_no_home(store, names.last(), bucket, store.modules@.len() as int);
            }
        }
    }
}

/// Where a peer module lives, as the catalog hands it out: `row` is the
/// place of its row among the modules, none for a name that no module of the
/// bucket has.
#[derive(Debug)]
pub struct Target {
    pub key: String,
    pub technical_name: String,
    pub row: Option<usize>,
}

impl Target {
    pub open spec fn home(&self) -> Home {
        Home {
            key: self.key@,
            name: self.technical_name@,
            row: match self.row {
                Some(i) => i as int,
                None => -1,
            },
        }
    }
}

/// Where each of `v` lives.
pub open spec fn homes_of(v: Seq<Target>) -> Seq<Home> {
    Seq::new(v.len(), |i: int| v[i].home())
}

/// The key of the repository of the module at `row`.
pub fn key_of_row(store: &Store, row: usize) -> (r: String)
    requires
        store.wf(),
        row < store.modules@.len(),
    ensures
        r@ == repository_key(store.repositories@, store.modules@[row as int]),
{
    let m = &store.modules[row];
    let repo = gh_repository::get_by_id(store, &m.gh_repository_id.0);
    proof {
        assert(gh_repository::has(
            store.repositories@,
            store.modules@[row as int].gh_repository_id.0,
            store.modules@[row as int].gh_repository_id.1@,
        ));
        let i = choose|i: int| 0 <= i < store.repositories@.len() && store.repositories@[i] == repo->0;
        gh_repository::lemma_org_name_of(store.repositories@, i);
    }
    let mut key = String::new();
    match repo {
        Some(r) => {
            key.append(r.gh_organization_id.1.as_str());
        },
        None => {},
    }
    key.append("/");
    key.append(m.gh_repository_id.1.as_str());
    assert(key@ =~= repository_key(store.repositories@, store.modules@[row as int]));
    key
}

/// The peer modules that the module at `row` depends on directly, each
/// where it lives.
pub fn targets(store: &Store, row: usize) -> (r: Vec<Target>)
    requires
        store.wf(),
        row < store.modules@.len(),
    ensures
        homes_of(r@) == direct(*store, row as int),
{
    let bucket = store.modules[row].version_odoo;
    let names = dependency_module::get_names(store, &store.modules[row].id, &dependency_type::MODULE);
    let ghost all = texts(names@);
    let mut r: Vec<Target> = Vec::new();
    let mut j: usize = 0;
    proof {
        assert(all.take(0) =~= Seq::<Seq<char>>::empty());
        assert(homes_of(r@) =~= Seq::<Home>::empty());
    }
    while j < names.len()
        invariant
            j <= names.len(),
            store.wf(),
            all == texts(names@),
            homes_of(r@) == resolved(*store, all.take(j as int), bucket),
        decreases names.len() - j,
    {
        let ghost name = all[j as int];
        let ghost before = r@;
        let start = r.len();
        let mut k: usize = 0;
        assert(name == names@[j as int]@);
        proof {
            assert(all.take(j + 1).drop_last() =~= all.take(j as int));
            assert(all.take(j + 1).last() == name);
            assert(homes_of(r@) =~= homes_of(before) + homes(*store, name, bucket, 0));
        }
        while k < store.modules.len()
            invariant
                k <= store.modules.len(),
                store.wf(),
                start == before.len(),
                j < names.len(),
                name == names@[j as int]@,
                homes_of(r@) == homes_of(before) + homes(*store, name, bucket, k as int),
            decreases store.modules.len() - k,
        {
            if store.modules[k].version_odoo == bucket && same_text(
                store.modules[k].technical_name.as_str(),
                names[j].as_str(),
            ) {
                let key = key_of_row(store, k);
                let ghost was = r@;
                r.push(Target { key, technical_name: names[j].clone(), row: Some(k) });
                proof {
                    assert(homes_of(r@) =~= homes_of(was).push(
                        Home {
                            key: repository_key(store.repositories@, store.modules@[k as int]),
                            name,
                            row: k as int,
                        },
                    ));
                    assert(homes_of(r@) =~= homes_of(before) + homes(*store, name, bucket, k + 1));
                }
            }
            k += 1;
        }
        if r.len() == start {
            let ghost was = r@;
            r.push(Target { key: "/".to_owned(), technical_name: names[j].clone(), row: None });
            proof {
                assert(homes(*store, name, bucket, store.modules@.len() as int).len() == 0) by {
                    assert(homes_of(r@).len() == r@.len());
                    assert(homes_of(was).len() == was.len());
                    assert(homes_of(before).len() == before.len());
                }
                assert(homes_of(r@) =~= homes_of(before) + resolutions(*store, name, bucket));
            }
        } else {
            proof {
                assert(homes_of(r@).len() == r@.len());
                assert(homes_of(before).len() == before.len());
            }
        }
        j += 1;
    }
    proof {
        assert(all.take(names@.len() as int) =~= all);
    }
    r
}

/// Whether `info` says where the module of `home` lives, a peer module
/// that a module of the bucket `bucket` depends on: its technical name; for
/// a module of the bucket, the name of its repository and the name of the
/// organization of that repository, each on its own; for a name that no
/// module of the bucket has, neither.
pub open spec fn says(info: DependencyModuleInfo, store: Store, bucket: u8, home: Home) -> bool {
    &&& info.technical_name@ == home.name
    &&& -1 <= home.row < store.modules@.len()
    &&& home.row >= 0 ==> {
        let m = store.modules@[home.row];
        &&& m.technical_name@ == info.technical_name@
        &&& m.version_odoo == bucket
        &&& info.repo@ == m.gh_repository_id.1@
        &&& info.org@ == gh_repository::org_name_of(store.repositories@, m.gh_repository_id.0)
    }
    &&& home.row < 0 ==> {
        &&& info.org@.len() == 0
        &&& info.repo@.len() == 0
        &&& forall|j: int|
            0 <= j < store.modules@.len() ==> !((#[trigger] store.modules@[j]).technical_name@
                == home.name && store.modules@[j].version_odoo == bucket)
    }
}

/// Whether `infos` say, one for one, where the modules of `homes` live.
pub open spec fn say(infos: Seq<DependencyModuleInfo>, store: Store, bucket: u8, homes: Seq<Home>) -> bool {
    infos.len() == homes.len() && forall|i: int|
        0 <= i < infos.len() ==> says(#[trigger] infos[i], store, bucket, homes[i])
}

/// The peer modules that the module `module_id` depends on directly, each
/// with the organization and the repository that it lives in: one entry
/// for each module of the asking module's bucket that has the name of a
/// dependency, in the order of the dependencies. A name that no module of
/// the bucket has is kept, with an empty organization and an empty
/// repository.
pub fn get_module_dependency_info(store: &Store, module_id: &i64) -> (r: Vec<DependencyModuleInfo>)
    requires
        store.wf(),
    ensures
        !module::has_id(store.modules@, *module_id) ==> r@.len() == 0,
        forall|row: int|
            0 <= row < store.modules@.len() && (#[trigger] store.modules@[row]).id == *module_id
                ==> say(r@, *store, store.modules@[row].version_odoo, direct(*store, row)),
        forall|k: int|
            0 <= k < r@.len() ==> dependency_module::names_of_module(
                store.dependency_modules@,
                store.dependencies@,
                *module_id,
                dependency_type::MODULE,
            ).contains((#[trigger] r@[k]).technical_name@),
{
    let mut r: Vec<DependencyModuleInfo> = Vec::new();
    let row = match module::position_of_id(store, module_id) {
        Some(row) => row,
        None => {
            return r;
        },
    };
    let found = targets(store, row);
    let ghost wanted = direct(*store, row as int);
    let mut i: usize = 0;
    proof {
        assert(homes_of(found@).len() == found@.len());
        assert forall|other: int|
            0 <= other < store.modules@.len() && (#[trigger] store.modules@[other]).id
                == *module_id implies other == row by {
            if other < row {
                assert(store.modules@[other].id != store.modules@[row as int].id);
            } else if row < other {
                assert(store.modules@[row as int].id != store.modules@[other].id);
            }
        }
    }
    while i < found.len()
        invariant
            i <= found.len(),
            store.wf(),
            row < store.modules@.len(),
            wanted == direct(*store, row as int),
            homes_of(found@) == wanted,
            r@.len() == i,
            store.modules@[row as int].id == *module_id,
            forall|k: int|
                0 <= k < i ==> says(
                    #[trigger] r@[k],
                    *store,
                    store.modules@[row as int].version_odoo,
                    wanted[k],
                ),
            forall|k: int|
                0 <= k < i ==> dependency_module::names_of_module(
                    store.dependency_modules@,
                    store.dependencies@,
                    *module_id,
                    dependency_type::MODULE,
                ).contains((#[trigger] r@[k]).technical_name@),
        decreases found.len() - i,
    {
        assert(homes_of(found@)[i as int] == found@[i as int].home());
        proof {
            lemma_resolved(
                *store,
                dependency_module::names_of_module(
                    store.dependency_modules@,
                    store.dependencies@,
                    store.modules@[row as int].id,
                    dependency_type::MODULE,
                ),
                store.modules@[row as int].version_odoo,
                i as int,
            );
        }
        let mut org = String::new();
        let mut repo = String::new();
        match found[i].row {
            Some(x) => {
                let m = &store.modules[x];
                let home = gh_repository::get_by_id(store, &m.gh_repository_id.0);
                proof {
                    assert(gh_repository::has(
                        store.repositories@,
                        store.modules@[x as int].gh_repository_id.0,
                        store.modules@[x as int].gh_repository_id.1@,
                    ));
                    let a = choose|a: int|
                        0 <= a < store.repositories@.len() && store.repositories@[a] == home->0;
                    gh_repository::lemma_org_name_of(store.repositories@, a);
                }
                match home {
                    Some(h) => {
                        org = h.gh_organization_id.1;
                    },
                    None => {},
                }
                repo = m.gh_repository_id.1.clone();
            },
            None => {},
        }
        let ghost was = r@;
        r.push(DependencyModuleInfo { org, repo, technical_name: found[i].technical_name.clone() });
        proof {
            assert forall|k: int| 0 <= k < i implies r@[k] == was[k] by {}
        }
        i += 1;
    }
    r
}

} // verus!
