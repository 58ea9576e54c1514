//! What a deployment that is given a list of modules has to fetch: the
//! repository of each, and everything that they need, by repository.

use crate::models::module;
use crate::models::module::ModuleRepositoryInfo;
use crate::models::store::Store;
use crate::names::{first_seen, without_repeats};
use crate::server::module::{
    append_names, holds, process_modules_db, record, well_grouped, ModuleDependencyInfoResponse,
    ModuleFullInfoResponse,
};
use crate::text::{chars_of, texts};
use vstd::prelude::*;
use vstd::string::*;

verus! {

/// The repository of each module that `mods` names and the catalog has.
pub fn get_doodba_addons(store: &Store, mods: &Vec<String>) -> (r: Vec<ModuleRepositoryInfo>)
    ensures
        forall|k: int| 0 <= k < r@.len() ==> module::locates(#[trigger] r@[k], store.modules@),
        crate::names::distinct(module::located(r@)),
        forall|n: Seq<char>|
            module::located(r@).contains(n) <==> texts(mods@).contains(n) && module::is_named(
                store.modules@,
                n,
            ),
{
    module::get_module_repository(store, mods.as_slice())
}

/// Whether the first `/` of `s` stands at `i`.
pub open spec fn is_first_slash(s: Seq<char>, i: int) -> bool {
    &&& 0 <= i < s.len()
    &&& s[i] == '/'
    &&& forall|j: int| 0 <= j < i ==> s[j] != '/'
}

/// The key of a repository without its organization: what follows the
/// first `/` of `s`, or `s` where it has none.
pub open spec fn short_key(s: Seq<char>) -> Seq<char> {
    if exists|i: int| is_first_slash(s, i) {
        s.subrange((choose|i: int| is_first_slash(s, i)) + 1, s.len() as int)
    } else {
        s
    }
}

/// The key of a repository without its organization.
pub fn shorten(key: &str) -> (r: String)
    ensures
        r@ == short_key(key@),
{
    let c = chars_of(key);
    let mut k: usize = 0;
    while k < c.len()
        invariant
            k <= c.len(),
            c@ == key@,
            forall|j: int| 0 <= j < k ==> key@[j] != '/',
        decreases c.len() - k,
    {
        if c[k] == '/' {
            proof {
                assert(is_first_slash(key@, k as int));
                let i = choose|i: int| is_first_slash(key@, i);
                if i < k {
                    assert(key@[i] != '/');
                }
                if k < i {
                    assert(key@[k as int] != '/');
                }
            }
            return key.substring_char(k + 1, c.len()).to_owned();
        }
        k += 1;
    }
    assert(!exists|i: int| is_first_slash(key@, i));
    key.to_owned()
}

/// Whether `more` holds `name` under a key that is `key` without its
/// organization.
pub open spec fn holds_short(more: Seq<(String, Vec<String>)>, key: Seq<char>, name: Seq<char>) -> bool {
    exists|g: int|
        0 <= g < more.len() && short_key((#[trigger] more[g]).0@) == key && texts(
            more[g].1@,
        ).contains(name)
}

/// Whether `info` brings `name` under `key`: as the module itself under its
/// repository, or as one of its peer modules.
pub open spec fn brings(info: ModuleFullInfoResponse, key: Seq<char>, name: Seq<char>) -> bool {
    (key == info.repository@ && name == info.technical_name@) || holds_short(
        info.dependencies.odoo@,
        key,
        name,
    )
}

/// Whether one of `infos` brings `name` under `key`.
pub open spec fn brought(infos: Seq<ModuleFullInfoResponse>, key: Seq<char>, name: Seq<char>) -> bool {
    exists|i: int| 0 <= i < infos.len() && brings(#[trigger] infos[i], key, name)
}

/// The interpreter packages of `infos`, one list after the other.
pub open spec fn all_pip(infos: Seq<ModuleFullInfoResponse>) -> Seq<Seq<char>>
    decreases infos.len(),
{
    if infos.len() == 0 {
        Seq::<Seq<char>>::empty()
    } else {
        all_pip(infos.drop_last()) + texts(infos.last().dependencies.pip@)
    }
}

/// The binary tools of `infos`, one list after the other.
pub open spec fn all_bin(infos: Seq<ModuleFullInfoResponse>) -> Seq<Seq<char>>
    decreases infos.len(),
{
    if infos.len() == 0 {
        Seq::<Seq<char>>::empty()
    } else {
        all_bin(infos.drop_last()) + texts(infos.last().dependencies.bin@)
    }
}

fn record_each(groups: &mut Vec<(String, Vec<String>)>, key: &str, names: &Vec<String>)
    requires
        well_grouped(old(groups)@),
    ensures
        well_grouped(final(groups)@),
        forall|k: Seq<char>, n: Seq<char>|
            #[trigger] holds(final(groups)@, k, n) <==> holds(old(groups)@, k, n) || (k == key@
                && texts(names@).contains(n)),
{
    let mut v: usize = 0;
    while v < names.len()
        invariant
            v <= names.len(),
            well_grouped(groups@),
            forall|k: Seq<char>, n: Seq<char>|
                #[trigger] holds(groups@, k, n) <==> holds(old(groups)@, k, n) || (k == key@
                    && texts(names@).take(v as int).contains(n)),
        decreases names.len() - v,
    {
        let ghost before = groups@;
        record(groups, key, names[v].as_str());
        proof {
            assert(texts(names@)[v as int] == names@[v as int]@);
            assert forall|k: Seq<char>, n: Seq<char>| #[trigger]
                holds(groups@, k, n) <==> holds(old(groups)@, k, n) || (k == key@ && texts(
                names@,
            ).take(v + 1).contains(n)) by {
                crate::names::lemma_take_contains_step(texts(names@), v as int, n);
                assert(holds(groups@, k, n) <==> holds(before, k, n) || (k == key@ && n
                    == names@[v as int]@));
            }
        }
        v += 1;
    }
    assert(texts(names@).take(names@.len() as int) =~= texts(names@));
}

fn record_short(groups: &mut Vec<(String, Vec<String>)>, more: &Vec<(String, Vec<String>)>)
    requires
        well_grouped(old(groups)@),
    ensures
        well_grouped(final(groups)@),
        forall|k: Seq<char>, n: Seq<char>|
            #[trigger] holds(final(groups)@, k, n) <==> holds(old(groups)@, k, n) || holds_short(
                more@,
                k,
                n,
            ),
{
    let mut g: usize = 0;
    while g < more.len()
        invariant
            g <= more.len(),
            well_grouped(groups@),
            forall|k: Seq<char>, n: Seq<char>|
                #[trigger] holds(groups@, k, n) <==> holds(old(groups)@, k, n) || holds_short(
                    more@.take(g as int),
                    k,
                    n,
                ),
        decreases more.len() - g,
    {
        let ghost before = groups@;
        let key = shorten(more[g].0.as_str());
        record_each(groups, key.as_str(), &more[g].1);
        proof {
            let s = more@.take(g as int);
            let t = more@.take(g + 1);
            assert forall|k: Seq<char>, n: Seq<char>| #[trigger]
                holds(groups@, k, n) <==> holds(old(groups)@, k, n) || holds_short(t, k, n) by {
                assert(holds(groups@, k, n) <==> holds(before, k, n) || (k == key@ && texts(
                    more@[g as int].1@,
                ).contains(n)));
                if holds_short(s, k, n) {
                    let w = choose|w: int|
                        0 <= w < s.len() && short_key((#[trigger] s[w]).0@) == k && texts(
                            s[w].1@,
                        ).contains(n);
                    assert(t[w] == s[w]);
                }
                if k == key@ && texts(more@[g as int].1@).contains(n) {
                    assert(t[g as int] == more@[g as int]);
                }
                if holds_short(t, k, n) {
                    let w = choose|w: int|
                        0 <= w < t.len() && short_key((#[trigger] t[w]).0@) == k && texts(
                            t[w].1@,
                        ).contains(n);
                    if w < g {
                        assert(s[w] == t[w]);
                    }
                }
            }
        }
        g += 1;
    }
    assert(more@.take(more@.len() as int) =~= more@);
}

/// Everything that the modules of `infos` need together, and the modules
/// themselves: peer modules by the name of their repository, each name once
/// under it; the interpreter packages and the binary tools, each once, in
/// the order in which they are first met.
pub fn merged(infos: &Vec<ModuleFullInfoResponse>) -> (r: ModuleDependencyInfoResponse)
    ensures
        well_grouped(r.odoo@),
        forall|k: Seq<char>, n: Seq<char>| #[trigger] holds(r.odoo@, k, n) <==> brought(infos@, k, n),
        texts(r.pip@) == first_seen(all_pip(infos@)),
        texts(r.bin@) == first_seen(all_bin(infos@)),
{
    let mut groups: Vec<(String, Vec<String>)> = Vec::new();
    let mut pip: Vec<String> = Vec::new();
    let mut bin: Vec<String> = Vec::new();
    let mut i: usize = 0;
    proof {
        assert(infos@.take(0) =~= Seq::<ModuleFullInfoResponse>::empty());
        assert(texts(pip@) =~= Seq::<Seq<char>>::empty());
        assert(texts(bin@) =~= Seq::<Seq<char>>::empty());
    }
    while i < infos.len()
        invariant
            i <= infos.len(),
            well_grouped(groups@),
            forall|k: Seq<char>, n: Seq<char>|
                #[trigger] holds(groups@, k, n) <==> brought(infos@.take(i as int), k, n),
            texts(pip@) == all_pip(infos@.take(i as int)),
            texts(bin@) == all_bin(infos@.take(i as int)),
        decreases infos.len() - i,
    {
        let ghost before = groups@;
        record(&mut groups, infos[i].repository.as_str(), infos[i].technical_name.as_str());
        let ghost between = groups@;
        record_short(&mut groups, &infos[i].dependencies.odoo);
        append_names(&mut pip, &infos[i].dependencies.pip);
        append_names(&mut bin, &infos[i].dependencies.bin);
        proof {
            let s = infos@.take(i as int);
            let t = infos@.take(i + 1);
            assert(t.drop_last() =~= s);
            assert(t.last() == infos@[i as int]);
            assert forall|k: Seq<char>, n: Seq<char>| #[trigger]
                holds(groups@, k, n) <==> brought(t, k, n) by {
                assert(holds(groups@, k, n) <==> holds(between, k, n) || holds_short(
                    infos@[i as int].dependencies.odoo@,
                    k,
                    n,
                ));
                assert(holds(between, k, n) <==> holds(before, k, n) || (k
                    == infos@[i as int].repository@ && n == infos@[i as int].technical_name@));
                if brought(s, k, n) {
                    let w = choose|w: int| 0 <= w < s.len() && brings(#[trigger] s[w], k, n);
                    assert(t[w] == s[w]);
                }
                if brings(infos@[i as int], k, n) {
                    assert(t[i as int] == infos@[i as int]);
                }
                if brought(t, k, n) {
                    let w = choose|w: int| 0 <= w < t.len() && brings(#[trigger] t[w], k, n);
                    if w < i {
                        assert(s[w] == t[w]);
                    }
                }
            }
        }
        i += 1;
    }
    assert(infos@.take(infos@.len() as int) =~= infos@);
    ModuleDependencyInfoResponse {
        odoo: groups,
        pip: without_repeats(&pip),
        bin: without_repeats(&bin),
    }
}

/// The rows of the modules that `mods` names in the bucket `bucket`: for
/// each name in turn, the rows of that name and bucket in the order of the
/// catalog. A name that is given twice has its rows twice.
pub open spec fn rows_named(store: Store, mods: Seq<Seq<char>>, bucket: u8) -> Seq<module::Model>
    decreases mods.len(),
{
    if mods.len() == 0 {
        Seq::<module::Model>::empty()
    } else {
        rows_named(store, mods.drop_last(), bucket) + module::chosen(
            store.modules@,
            |m: module::Model| m.technical_name@ == mods.last() && m.version_odoo == bucket,
        )
    }
}

/// The rows of the modules that `mods` names in the bucket `version_odoo`,
/// for each name in turn.
pub fn named_rows(store: &Store, mods: &Vec<String>, version_odoo: &u8) -> (r: Vec<module::Model>)
    ensures
        r@ == rows_named(*store, texts(mods@), *version_odoo),
        forall|i: int| 0 <= i < r@.len() ==> store.modules@.contains(#[trigger] r@[i]),
        forall|i: int|
            0 <= i < r@.len() ==> texts(mods@).contains((#[trigger] r@[i]).technical_name@)
                && r@[i].version_odoo == *version_odoo,
        forall|j: int|
            0 <= j < store.modules@.len() && texts(mods@).contains(
                (#[trigger] store.modules@[j]).technical_name@,
            ) && store.modules@[j].version_odoo == *version_odoo ==> r@.contains(
                store.modules@[j],
            ),
{
    let mut r: Vec<module::Model> = Vec::new();
    let mut i: usize = 0;
    proof {
        assert(texts(mods@).take(0) =~= Seq::<Seq<char>>::empty());
    }
    while i < mods.len()
        invariant
            i <= mods.len(),
            r@ == rows_named(*store, texts(mods@).take(i as int), *version_odoo),
            forall|w: int| 0 <= w < r@.len() ==> store.modules@.contains(#[trigger] r@[w]),
            forall|w: int|
                0 <= w < r@.len() ==> texts(mods@).contains((#[trigger] r@[w]).technical_name@)
                    && r@[w].version_odoo == *version_odoo,
            forall|j: int|
                0 <= j < store.modules@.len() && texts(mods@).take(i as int).contains(
                    (#[trigger] store.modules@[j]).technical_name@,
                ) && store.modules@[j].version_odoo == *version_odoo ==> r@.contains(
                    store.modules@[j],
                ),
        decreases mods.len() - i,
    {
        let mut found = module::get_by_technical_name_odoo_version(
            store,
            mods[i].as_str(),
            version_odoo,
        );
        let ghost wanted = |m: module::Model|
            m.technical_name@ == mods@[i as int]@ && m.version_odoo == *version_odoo;
        let ghost before = r@;
        let ghost got = found@;
        r.append(&mut found);
        proof {
            assert(r@ == before + got);
            assert(texts(mods@)[i as int] == mods@[i as int]@);
            assert(texts(mods@).take(i + 1).drop_last() =~= texts(mods@).take(i as int));
            assert(texts(mods@).take(i + 1).last() == mods@[i as int]@);
            crate::server::module::lemma_chosen_alike(
                store.modules@,
                wanted,
                |m: module::Model|
                    m.technical_name@ == texts(mods@).take(i + 1).last() && m.version_odoo
                        == *version_odoo,
            );
            assert forall|w: int| 0 <= w < got.len() implies store.modules@.contains(
                #[trigger] got[w],
            ) && wanted(got[w]) by {
                module::lemma_chosen(store.modules@, wanted, got[w]);
                assert(got.contains(got[w]));
            }
            assert forall|w: int| 0 <= w < r@.len() implies store.modules@.contains(
                #[trigger] r@[w],
            ) && texts(mods@).contains(r@[w].technical_name@) && r@[w].version_odoo
                == *version_odoo by {
                if w < before.len() {
                    assert(r@[w] == before[w]);
                } else {
                    assert(r@[w] == got[w - before.len()]);
                }
            }
            assert forall|j: int|
                0 <= j < store.modules@.len() && texts(mods@).take(i + 1).contains(
                    (#[trigger] store.modules@[j]).technical_name@,
                ) && store.modules@[j].version_odoo == *version_odoo implies r@.contains(
                store.modules@[j],
            ) by {
                let m = store.modules@[j];
                crate::names::lemma_take_contains_step(texts(mods@), i as int, m.technical_name@);
                if texts(mods@).take(i as int).contains(m.technical_name@) {
                    let w = choose|w: int| 0 <= w < before.len() && before[w] == m;
                    assert(r@[w] == m);
                } else {
                    assert(wanted(m));
                    assert(store.modules@.contains(m));
                    module::lemma_chosen(store.modules@, wanted, m);
                    let w = choose|w: int| 0 <= w < got.len() && got[w] == m;
                    assert(r@[before.len() + w] == m);
                }
            }
        }
        i += 1;
    }
    assert(texts(mods@).take(mods@.len() as int) =~= texts(mods@));
    r
}

/// Whether `infos` are everything that the catalog knows of the rows
/// `rows`, one for one.
pub open spec fn answer_all(
    infos: Seq<ModuleFullInfoResponse>,
    store: Store,
    rows: Seq<module::Model>,
) -> bool {
    infos.len() == rows.len() && forall|i: int|
        0 <= i < infos.len() ==> crate::server::module::answers_for(
            #[trigger] infos[i],
            store,
            rows[i],
        )
}

/// Every module of the catalog that `mods` names in the bucket `bucket` is
/// among the rows named, and every row named is such a module.
pub proof fn lemma_rows_named(store: Store, mods: Seq<Seq<char>>, bucket: u8, m: module::Model)
    ensures
        rows_named(store, mods, bucket).contains(m) <==> store.modules@.contains(m)
            && mods.contains(m.technical_name@) && m.version_odoo == bucket,
    decreases mods.len(),
{
    if mods.len() > 0 {
        let init = mods.drop_last();
        lemma_rows_named(store, init, bucket, m);
        let wanted = |x: module::Model| x.technical_name@ == mods.last() && x.version_odoo == bucket;
        let a = rows_named(store, init, bucket);
        let b = module::chosen(store.modules@, wanted);
        module::lemma_chosen(store.modules@, wanted, m);
        assert(mods[mods.len() - 1] == mods.last());
        if mods.contains(m.technical_name@) {
            let i = choose|i: int| 0 <= i < mods.len() && mods[i] == m.technical_name@;
            if i < mods.len() - 1 {
                assert(init[i] == m.technical_name@);
            }
        }
        if init.contains(m.technical_name@) {
            let i = choose|i: int| 0 <= i < init.len() && init[i] == m.technical_name@;
            assert(mods[i] == m.technical_name@);
        }
        if a.contains(m) {
            let i = choose|i: int| 0 <= i < a.len() && a[i] == m;
            assert((a + b)[i] == m);
        }
        if b.contains(m) {
            let i = choose|i: int| 0 <= i < b.len() && b[i] == m;
            assert((a + b)[a.len() + i] == m);
        }
        if (a + b).contains(m) {
            let i = choose|i: int| 0 <= i < (a + b).len() && (a + b)[i] == m;
            if i < a.len() {
                assert(a[i] == m);
            } else {
                assert(b[i - a.len()] == m);
            }
        }
    }
}

/// Everything that the modules which `mods` names in the bucket
/// `version_odoo` need together, and those modules themselves: what
/// `merged` makes of everything that the catalog knows of each of those
/// modules, taken in the order of `rows_named`. Every module of the catalog
/// that `mods` names in the bucket is among them.
pub fn get_doodba_addons_full(store: &Store, mods: &Vec<String>, version_odoo: &u8) -> (r:
    ModuleDependencyInfoResponse)
    requires
        store.wf(),
    ensures
        well_grouped(r.odoo@),
        exists|infos: Seq<ModuleFullInfoResponse>|
            {
                &&& #[trigger] answer_all(
                    infos,
                    *store,
                    rows_named(*store, texts(mods@), *version_odoo),
                )
                &&& forall|k: Seq<char>, n: Seq<char>|
                    #[trigger] holds(r.odoo@, k, n) <==> brought(infos, k, n)
                &&& texts(r.pip@) == first_seen(all_pip(infos))
                &&& texts(r.bin@) == first_seen(all_bin(infos))
                &&& forall|j: int|
                    0 <= j < store.modules@.len() && texts(mods@).contains(
                        (#[trigger] store.modules@[j]).technical_name@,
                    ) && store.modules@[j].version_odoo == *version_odoo ==> exists|i: int|
                        0 <= i < infos.len() && crate::server::module::answers_for(
                            #[trigger] infos[i],
                            *store,
                            store.modules@[j],
                        )
            },
        forall|j: int|
            0 <= j < store.modules@.len() && texts(mods@).contains(
                (#[trigger] store.modules@[j]).technical_name@,
            ) && store.modules@[j].version_odoo == *version_odoo ==> holds(
                r.odoo@,
                store.modules@[j].gh_repository_id.1@,
                store.modules@[j].technical_name@,
            ),
{
    let rows = named_rows(store, mods, version_odoo);
    let infos = process_modules_db(store, &rows);
    let r = merged(&infos);
    proof {
        assert(answer_all(infos@, *store, rows@));
        assert forall|j: int|
            0 <= j < store.modules@.len() && texts(mods@).contains(
                (#[trigger] store.modules@[j]).technical_name@,
            ) && store.modules@[j].version_odoo == *version_odoo implies (exists|i: int|
            0 <= i < infos@.len() && crate::server::module::answers_for(
                #[trigger] infos@[i],
                *store,
                store.modules@[j],
            )) && holds(
            r.odoo@,
            store.modules@[j].gh_repository_id.1@,
            store.modules@[j].technical_name@,
        ) by {
            let m = store.modules@[j];
            assert(store.modules@.contains(m));
            lemma_rows_named(*store, texts(mods@), *version_odoo, m);
            assert(rows@.contains(m));
            let i = choose|i: int| 0 <= i < rows@.len() && rows@[i] == m;
            assert(crate::server::module::answers_for(infos@[i], *store, m));
            let row = choose|row: int|
                0 <= row < store.modules@.len() && #[trigger] store.modules@[row] == m
                    && crate::server::module::answers(infos@[i], *store, row);
            assert(brought(infos@, m.gh_repository_id.1@, m.technical_name@));
        }
    }
    r
}

} // verus!
