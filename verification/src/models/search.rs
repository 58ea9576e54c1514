//! Search: the modules whose technical name holds a text, grouped by name
//! and repository, with the buckets in which each group is found.

use crate::models::dependency::{key_of_row, repository_key};
use crate::models::module::{Model, ModuleGenericInfo};
use crate::models::ranking::folded;
use crate::models::store::Store;
use crate::text::{append_decimal, chars_of, decimal_text, same_text};
use vstd::prelude::*;
use vstd::string::*;

verus! {

/// What a search asks for: a text that the technical name has to hold,
/// capital and small letters of the basic alphabet taken as the same, and,
/// where given, the bucket and whether the module can be installed.
pub struct Wanted {
    pub text: Seq<char>,
    pub bucket: Option<u8>,
    pub installable: Option<bool>,
}

/// Whether `text` stands in `name` at the place `i`, capital and small
/// letters of the basic alphabet taken as the same.
pub open spec fn stands_like(name: Seq<char>, text: Seq<char>, i: int) -> bool {
    0 <= i && i + text.len() <= name.len() && forall|k: int|
        0 <= k < text.len() ==> folded(#[trigger] name[i + k]) == folded(text[k])
}

/// Whether `name` holds `text`, capital and small letters of the basic
/// alphabet taken as the same.
pub open spec fn holds_like(name: Seq<char>, text: Seq<char>) -> bool {
    exists|i: int| stands_like(name, text, i)
}

/// Whether the module `m` is what the search asks for.
pub open spec fn is_wanted(m: Model, wanted: Wanted) -> bool {
    &&& holds_like(m.technical_name@, wanted.text)
    &&& wanted.bucket matches Some(v) ==> m.version_odoo == v
    &&& wanted.installable matches Some(b) ==> m.installable == b
}

/// The buckets of the wanted modules named `name` in repositories with the
/// key `src`, among the first `n` modules, in order.
pub open spec fn buckets_of(
    store: Store,
    wanted: Wanted,
    name: Seq<char>,
    src: Seq<char>,
    n: int,
) -> Seq<u8>
    decreases n,
{
    if n <= 0 || n > store.modules@.len() {
        Seq::<u8>::empty()
    } else {
        let init = buckets_of(store, wanted, name, src, n - 1);
        let m = store.modules@[n - 1];
        if is_wanted(m, wanted) && m.technical_name@ == name && repository_key(
            store.repositories@,
            m,
        ) == src {
            init.push(m.version_odoo)
        } else {
            init
        }
    }
}

/// A group of found modules: a technical name, the key of a repository, and
/// the buckets in which the repository has a wanted module of that name.
#[derive(Debug)]
pub struct Found {
    pub technical_name: String,
    pub src: String,
    pub versions: Vec<u8>,
}

/// Whether `groups` has a group for `name` and `src`.
pub open spec fn has_group(groups: Seq<Found>, name: Seq<char>, src: Seq<char>) -> bool {
    exists|k: int|
        0 <= k < groups.len() && (#[trigger] groups[k]).technical_name@ == name && groups[k].src@
            == src
}

/// Whether `groups` is what the search finds among the first `n` modules:
/// no name and key twice, each group with the buckets of its modules, and a
/// group for each wanted module.
pub open spec fn is_found(groups: Seq<Found>, store: Store, wanted: Wanted, n: int) -> bool {
    &&& forall|a: int, b: int|
        0 <= a < b < groups.len() ==> !((#[trigger] groups[a]).technical_name@ == (
        #[trigger] groups[b]).technical_name@ && groups[a].src@ == groups[b].src@)
    &&& forall|k: int|
        0 <= k < groups.len() ==> (#[trigger] groups[k]).versions@.len() > 0 && groups[k].versions@
            == buckets_of(store, wanted, groups[k].technical_name@, groups[k].src@, n)
    &&& forall|j: int|
        0 <= j < n && is_wanted(#[trigger] store.modules@[j], wanted) ==> has_group(
            groups,
            store.modules@[j].technical_name@,
            repository_key(store.repositories@, store.modules@[j]),
        )
}

fn has_like(name: &Vec<char>, text: &Vec<char>) -> (r: bool)
    ensures
        r == holds_like(name@, text@),
{
    if text.len() > name.len() {
        assert forall|i: int| !stands_like(name@, text@, i) by {}
        return false;
    }
    let last = name.len() - text.len();
    let mut i: usize = 0;
    while i <= last
        invariant
            i <= last + 1,
            last == name.len() - text.len(),
            forall|k: int| 0 <= k < i ==> !stands_like(name@, text@, k),
        decreases last + 1 - i,
    {
        let mut j: usize = 0;
        while j < text.len() && crate::models::ranking::fold(name[i + j]) == crate::models::ranking::fold(
            text[j],
        )
            invariant
                j <= text.len(),
                i <= last,
                last == name.len() - text.len(),
                forall|k: int| 0 <= k < j ==> folded(#[trigger] name@[i + k]) == folded(text@[k]),
            decreases text.len() - j,
        {
            j += 1;
        }
        if j == text.len() {
            assert(stands_like(name@, text@, i as int));
            return true;
        }
        assert(!stands_like(name@, text@, i as int)) by {
            assert(folded(name@[i + j]) != folded(text@[j as int]));
        }
        i += 1;
    }
    assert forall|k: int| !stands_like(name@, text@, k) by {}
    false
}

fn place_of_group(groups: &Vec<Found>, name: &str, src: &str) -> (at: Option<usize>)
    ensures
        at is Some <==> has_group(groups@, name@, src@),
        at matches Some(w) ==> w < groups@.len() && groups@[w as int].technical_name@ == name@
            && groups@[w as int].src@ == src@,
{
    let mut k: usize = 0;
    while k < groups.len()
        invariant
            k <= groups.len(),
            forall|w: int|
                0 <= w < k ==> !((#[trigger] groups@[w]).technical_name@ == name@ && groups@[w].src@
                    == src@),
        decreases groups.len() - k,
    {
        if same_text(groups[k].technical_name.as_str(), name) && same_text(
            groups[k].src.as_str(),
            src,
        ) {
            return Some(k);
        }
        k += 1;
    }
    None
}

/// The search named by the text `text`, the bucket and the mark.
pub open spec fn wanted_of(text: Seq<char>, bucket: Option<u8>, installable: Option<bool>) -> Wanted {
    Wanted { text, bucket, installable }
}

/// What the search finds: the wanted modules, grouped by technical name and
/// by the key of their repository, in the order in which the groups are
/// first met, each group with the buckets of its modules.
pub fn find(
    store: &Store,
    text: &str,
    bucket: Option<u8>,
    installable: Option<bool>,
) -> (r: Vec<Found>)
    requires
        store.wf(),
    ensures
        is_found(
            r@,
            *store,
            wanted_of(text@, bucket, installable),
            store.modules@.len() as int,
        ),
{
    let ghost wanted = wanted_of(text@, bucket, installable);
    let pattern = chars_of(text);
    let mut r: Vec<Found> = Vec::new();
    let mut j: usize = 0;
    while j < store.modules.len()
        invariant
            j <= store.modules.len(),
            store.wf(),
            pattern@ == text@,
            wanted == wanted_of(text@, bucket, installable),
            is_found(r@, *store, wanted, j as int),
        decreases store.modules.len() - j,
    {
        let m = &store.modules[j];
        let name = chars_of(m.technical_name.as_str());
        let fits = has_like(&name, &pattern) && (match bucket {
            Some(v) => m.version_odoo == v,
            None => true,
        }) && (match installable {
            Some(b) => m.installable == b,
            None => true,
        });
        let ghost before = r@;
        assert(fits == is_wanted(store.modules@[j as int], wanted));
        if fits {
            let src = key_of_row(store, j);
            let at = place_of_group(&r, m.technical_name.as_str(), src.as_str());
            match at {
                Some(w) => {
                    let mut versions: Vec<u8> = Vec::new();
                    let mut x: usize = 0;
                    while x < r[w].versions.len()
                        invariant
                            x <= r@[w as int].versions@.len(),
                            w < r@.len(),
                            r@ == before,
                            versions@ == r@[w as int].versions@.take(x as int),
                        decreases r@[w as int].versions@.len() - x,
                    {
                        versions.push(r[w].versions[x]);
                        assert(versions@ =~= r@[w as int].versions@.take(x + 1));
                        x += 1;
                    }
                    assert(r@[w as int].versions@.take(r@[w as int].versions@.len() as int)
                        =~= r@[w as int].versions@);
                    versions.push(m.version_odoo);
                    let group = Found {
                        technical_name: r[w].technical_name.clone(),
                        src: r[w].src.clone(),
                        versions,
                    };
                    r.set(w, group);
                    proof {
                        let after = r@;
                        assert forall|k: int| 0 <= k < after.len() implies (
                        #[trigger] after[k]).technical_name@ == before[k].technical_name@
                            && after[k].src@ == before[k].src@ && (k != w ==> after[k]
                            == before[k]) by {}
                        assert forall|a: int, b: int| 0 <= a < b < after.len() implies !((
                        #[trigger] after[a]).technical_name@ == (
                        #[trigger] after[b]).technical_name@ && after[a].src@ == after[b].src@) by {
                            assert(!(before[a].technical_name@ == before[b].technical_name@
                                && before[a].src@ == before[b].src@));
                        }
                        assert forall|k: int| 0 <= k < after.len() implies (
                        #[trigger] after[k]).versions@.len() > 0 && after[k].versions@
                            == buckets_of(
                            *store,
                            wanted,
                            after[k].technical_name@,
                            after[k].src@,
                            j + 1,
                        ) by {
                            if k != w {
                                assert(after[k] == before[k]);
                                if k < w {
                                    assert(!(before[k].technical_name@ == before[w as int].technical_name@
                                        && before[k].src@ == before[w as int].src@));
                                } else {
                                    assert(!(before[w as int].technical_name@
                                        == before[k].technical_name@ && before[w as int].src@
                                        == before[k].src@));
                                }
                            }
                        }
                        assert forall|i: int|
                            0 <= i < j + 1 && is_wanted(
                                #[trigger] store.modules@[i],
                                wanted,
                            ) implies has_group(
                            after,
                            store.modules@[i].technical_name@,
                            repository_key(store.repositories@, store.modules@[i]),
                        ) by {
                            if i < j {
                                let k = choose|k: int|
                                    0 <= k < before.len() && (
                                    #[trigger] before[k]).technical_name@
                                        == store.modules@[i].technical_name@ && before[k].src@
                                        == repository_key(
                                        store.repositories@,
                                        store.modules@[i],
                                    );
                                assert(after[k].technical_name@ == before[k].technical_name@);
                            } else {
                                assert(after[w as int].src@ == src@);
                            }
                        }
                    }
                },
                None => {
                    let mut versions: Vec<u8> = Vec::new();
                    versions.push(m.version_odoo);
                    r.push(Found { technical_name: m.technical_name.clone(), src, versions });
                    proof {
                        let after = r@;
                        let last = before.len() as int;
                        assert forall|k: int| 0 <= k < before.len() implies after[k]
                            == before[k] by {}
                        lemma_no_group(
                            *store,
                            wanted,
                            before,
                            after[last].technical_name@,
                            after[last].src@,
                            j as int,
                        );
                        assert(after[last].versions@ =~= buckets_of(
                            *store,
                            wanted,
                            after[last].technical_name@,
                            after[last].src@,
                            j + 1,
                        ));
                        assert forall|k: int| 0 <= k < after.len() implies (
                        #[trigger] after[k]).versions@.len() > 0 && after[k].versions@
                            == buckets_of(
                            *store,
                            wanted,
                            after[k].technical_name@,
                            after[k].src@,
                            j + 1,
                        ) by {
                            if k < last {
                                assert(after[k] == before[k]);
                            }
                        }
                        assert forall|i: int|
                            0 <= i < j + 1 && is_wanted(
                                #[trigger] store.modules@[i],
                                wanted,
                            ) implies has_group(
                            after,
                            store.modules@[i].technical_name@,
                            repository_key(store.repositories@, store.modules@[i]),
                        ) by {
                            if i < j {
                                let k = choose|k: int|
                                    0 <= k < before.len() && (
                                    #[trigger] before[k]).technical_name@
                                        == store.modules@[i].technical_name@ && before[k].src@
                                        == repository_key(
                                        store.repositories@,
                                        store.modules@[i],
                                    );
                                assert(after[k] == before[k]);
                            } else {
                                assert(after[last].src@ == src@);
                            }
                        }
                    }
                },
            }
        }
        j += 1;
    }
    r
}

/// A name and key that have no group have no wanted module so far.
proof fn lemma_no_group(
    store: Store,
    wanted: Wanted,
    groups: Seq<Found>,
    name: Seq<char>,
    src: Seq<char>,
    n: int,
)
    requires
        0 <= n <= store.modules@.len(),
        !has_group(groups, name, src),
        forall|j: int|
            0 <= j < n && is_wanted(#[trigger] store.modules@[j], wanted) ==> has_group(
                groups,
                store.modules@[j].technical_name@,
                repository_key(store.repositories@, store.modules@[j]),
            ),
    ensures
        buckets_of(store, wanted, name, src, n).len() == 0,
    decreases n,
{
    if n > 0 {
        lemma_no_group(store, wanted, groups, name, src, n - 1);
        let m = store.modules@[n - 1];
        if is_wanted(m, wanted) && m.technical_name@ == name && repository_key(
            store.repositories@,
            m,
        ) == src {
            assert(has_group(groups, name, src));
        }
    }
}

/// The numbers `v` in decimal, with commas between.
pub open spec fn numbers_text(v: Seq<u8>) -> Seq<char>
    decreases v.len(),
{
    if v.len() == 0 {
        Seq::<char>::empty()
    } else if v.len() == 1 {
        decimal_text(v[0] as nat)
    } else {
        numbers_text(v.drop_last()) + ","@ + decimal_text(v.last() as nat)
    }
}

fn numbers_string(v: &Vec<u8>) -> (r: String)
    ensures
        r@ == numbers_text(v@),
{
    let mut r = String::new();
    let mut i: usize = 0;
    proof {
        assert(v@.take(0) =~= Seq::<u8>::empty());
    }
    while i < v.len()
        invariant
            i <= v.len(),
            r@ == numbers_text(v@.take(i as int)),
        decreases v.len() - i,
    {
        proof {
            assert(v@.take(i + 1).drop_last() =~= v@.take(i as int));
            assert(v@.take(i + 1).last() == v@[i as int]);
        }
        if i > 0 {
            r.append(",");
        }
        append_decimal(&mut r, v[i] as u64);
        proof {
            assert(r@ =~= numbers_text(v@.take(i + 1)));
        }
        i += 1;
    }
    proof {
        assert(v@.take(v@.len() as int) =~= v@);
    }
    r
}

/// Whether `infos` tell, one for one, of the groups `groups`: the name, the
/// key of the repository, and the buckets in decimal with commas between.
pub open spec fn tell_of(infos: Seq<ModuleGenericInfo>, groups: Seq<Found>) -> bool {
    infos.len() == groups.len() && forall|k: int|
        0 <= k < infos.len() ==> (#[trigger] infos[k]).technical_name@
            == groups[k].technical_name@ && infos[k].src@ == groups[k].src@ && infos[k].versions@
            == numbers_text(groups[k].versions@)
}

/// Whether `infos` are what the search finds in the catalog.
pub open spec fn is_generic_info(infos: Seq<ModuleGenericInfo>, store: Store, wanted: Wanted) -> bool {
    exists|groups: Seq<Found>|
        #[trigger] is_found(groups, store, wanted, store.modules@.len() as int) && tell_of(
            infos,
            groups,
        )
}

/// What is told of the groups `groups`.
pub fn generic_infos(groups: &Vec<Found>) -> (r: Vec<ModuleGenericInfo>)
    ensures
        tell_of(r@, groups@),
{
    let mut r: Vec<ModuleGenericInfo> = Vec::new();
    let mut k: usize = 0;
    while k < groups.len()
        invariant
            k <= groups.len(),
            r@.len() == k,
            forall|w: int|
                0 <= w < k ==> (#[trigger] r@[w]).technical_name@ == groups@[w].technical_name@
                    && r@[w].src@ == groups@[w].src@ && r@[w].versions@ == numbers_text(
                    groups@[w].versions@,
                ),
        decreases groups.len() - k,
    {
        let ghost before = r@;
        r.push(
            ModuleGenericInfo {
                technical_name: groups[k].technical_name.clone(),
                versions: numbers_string(&groups[k].versions),
                src: groups[k].src.clone(),
            },
        );
        assert forall|w: int| 0 <= w < before.len() implies r@[w] == before[w] by {}
        k += 1;
    }
    r
}

/// The modules whose technical name holds `technical_name`, grouped.
pub fn get_generic_info(store: &Store, technical_name: &str) -> (r: Vec<ModuleGenericInfo>)
    requires
        store.wf(),
    ensures
        is_generic_info(r@, *store, wanted_of(technical_name@, None, None)),
{
    let groups = find(store, technical_name, None, None);
    let r = generic_infos(&groups);
    assert(is_found(
        groups@,
        *store,
        wanted_of(technical_name@, None, None),
        store.modules@.len() as int,
    ));
    r
}

/// The modules of the bucket `version_odoo` whose technical name holds
/// `technical_name`, grouped.
pub fn get_generic_info_by_odoo_version(store: &Store, technical_name: &str, version_odoo: &u8) -> (r:
    Vec<ModuleGenericInfo>)
    requires
        store.wf(),
    ensures
        is_generic_info(r@, *store, wanted_of(technical_name@, Some(*version_odoo), None)),
{
    let groups = find(store, technical_name, Some(*version_odoo), None);
    let r = generic_infos(&groups);
    assert(is_found(
        groups@,
        *store,
        wanted_of(technical_name@, Some(*version_odoo), None),
        store.modules@.len() as int,
    ));
    r
}

/// The modules of the bucket `version_odoo` whose technical name holds
/// `technical_name` and that can be installed, or cannot, as `installable`
/// says, grouped.
pub fn get_generic_info_by_odoo_version_installable(
    store: &Store,
    technical_name: &str,
    version_odoo: &u8,
    installable: &bool,
) -> (r: Vec<ModuleGenericInfo>)
    requires
        store.wf(),
    ensures
        is_generic_info(
            r@,
            *store,
            wanted_of(technical_name@, Some(*version_odoo), Some(*installable)),
        ),
{
    let groups = find(store, technical_name, Some(*version_odoo), Some(*installable));
    let r = generic_infos(&groups);
    assert(is_found(
        groups@,
        *store,
        wanted_of(technical_name@, Some(*version_odoo), Some(*installable)),
        store.modules@.len() as int,
    ));
    r
}

/// The modules whose technical name holds `technical_name` and that can be
/// installed, or cannot, as `installable` says, grouped.
pub fn get_generic_info_by_installable(store: &Store, technical_name: &str, installable: &bool) -> (r:
    Vec<ModuleGenericInfo>)
    requires
        store.wf(),
    ensures
        is_generic_info(r@, *store, wanted_of(technical_name@, None, Some(*installable))),
{
    let groups = find(store, technical_name, None, Some(*installable));
    let r = generic_infos(&groups);
    assert(is_found(
        groups@,
        *store,
        wanted_of(technical_name@, None, Some(*installable)),
        store.modules@.len() as int,
    ));
    r
}

} // verus!
