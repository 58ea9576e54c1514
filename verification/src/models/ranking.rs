//! Counts and ranks for the dashboard: how many modules each organization
//! has in each bucket, and who stands first among the contributors and the
//! committers of each bucket.
//!
//! A rank is one more than the number of those who have more; so equals
//! share a rank, and the rank behind them is left out.

use crate::models::author;
use crate::models::committer;
use crate::models::gh_repository;
use crate::models::module;
use crate::models::module::{
    capped, ModuleCountByOrganizationInfo, ModuleRankCommitterInfo, ModuleRankContributorInfo,
};
use crate::models::module_author;
use crate::models::module_committer;
use crate::models::store::Store;
use crate::text::{chars_of, same_text};
use vstd::prelude::*;

verus! {

/// How many of the first `n` scores are greater than the score at `i`.
pub open spec fn beaten(scores: Seq<u32>, i: int, n: int) -> nat
    decreases n,
{
    if n <= 0 {
        0
    } else {
        beaten(scores, i, n - 1) + if scores[n - 1] > scores[i] {
            1nat
        } else {
            0nat
        }
    }
}

/// The rank of the score at `i`: one more than the number of scores that
/// are greater.
pub open spec fn rank_in(scores: Seq<u32>, i: int) -> nat {
    beaten(scores, i, scores.len() as int) + 1
}

/// The rank of the score at `i`, or 6 where the rank is greater than 5.
pub fn rank_at(scores: &Vec<u32>, i: usize) -> (r: u16)
    requires
        i < scores@.len(),
    ensures
        1 <= r <= 6,
        rank_in(scores@, i as int) <= 5 ==> r == rank_in(scores@, i as int),
        rank_in(scores@, i as int) > 5 ==> r == 6,
{
    let mut ahead: u16 = 0;
    let mut j: usize = 0;
    while j < scores.len()
        invariant
            j <= scores.len(),
            i < scores@.len(),
            ahead <= 5,
            beaten(scores@, i as int, j as int) < 5 ==> ahead == beaten(
                scores@,
                i as int,
                j as int,
            ),
            beaten(scores@, i as int, j as int) >= 5 ==> ahead == 5,
        decreases scores.len() - j,
    {
        if scores[j] > scores[i] && ahead < 5 {
            ahead += 1;
        }
        j += 1;
    }
    ahead + 1
}

/// The version of the module with the identity `id`; none where the catalog
/// has no such module.
pub open spec fn version_of(modules: Seq<module::Model>, id: i64) -> Option<u8> {
    if module::has_id(modules, id) {
        Some(
            modules[choose|i: int| 0 <= i < modules.len() && (#[trigger] modules[i]).id
                == id].version_odoo,
        )
    } else {
        None
    }
}

/// The version of the module with the identity `id`.
pub fn bucket_of(store: &Store, id: i64) -> (r: Option<u8>)
    requires
        store.wf(),
    ensures
        r == version_of(store.modules@, id),
{
    match module::position_of_id(store, &id) {
        Some(i) => {
            proof {
                let k = choose|k: int|
                    0 <= k < store.modules@.len() && (#[trigger] store.modules@[k]).id == id;
                if k < i {
                    assert(store.modules@[k].id != store.modules@[i as int].id);
                } else if i < k {
                    assert(store.modules@[i as int].id != store.modules@[k].id);
                }
            }
            Some(store.modules[i].version_odoo)
        },
        None => None,
    }
}

/// The character `c`, as a small letter where it is a capital letter of the
/// basic alphabet.
pub open spec fn folded(c: char) -> char {
    if 'A' <= c <= 'Z' {
        ((c as u32 + 32) as u8) as char
    } else {
        c
    }
}

pub fn fold(c: char) -> (r: char)
    ensures
        r == folded(c),
{
    let u: u32 = c as u32;
    if 65 <= u && u <= 90 {
        ((u + 32) as u8) as char
    } else {
        c
    }
}

/// Whether `name` starts with `start`, capital and small letters of the
/// basic alphabet taken as the same.
pub open spec fn starts_like(name: Seq<char>, start: Seq<char>) -> bool {
    start.len() <= name.len() && forall|i: int|
        0 <= i < start.len() ==> folded(#[trigger] name[i]) == folded(start[i])
}

/// Whether `name` ends with `end`, capital and small letters of the basic
/// alphabet taken as the same.
pub open spec fn ends_like(name: Seq<char>, end: Seq<char>) -> bool {
    end.len() <= name.len() && forall|i: int|
        0 <= i < end.len() ==> folded(#[trigger] name[name.len() - end.len() + i]) == folded(
            end[i],
        )
}

fn has_start(name: &Vec<char>, start: &str) -> (r: bool)
    ensures
        r == starts_like(name@, start@),
{
    let s = chars_of(start);
    if s.len() > name.len() {
        return false;
    }
    let mut i: usize = 0;
    while i < s.len()
        invariant
            i <= s.len(),
            s@ == start@,
            s.len() <= name.len(),
            forall|k: int| 0 <= k < i ==> folded(#[trigger] name@[k]) == folded(s@[k]),
        decreases s.len() - i,
    {
        if fold(name[i]) != fold(s[i]) {
            return false;
        }
        i += 1;
    }
    true
}

fn has_end(name: &Vec<char>, end: &str) -> (r: bool)
    ensures
        r == ends_like(name@, end@),
{
    let s = chars_of(end);
    if s.len() > name.len() {
        return false;
    }
    let shift = name.len() - s.len();
    let mut i: usize = 0;
    while i < s.len()
        invariant
            i <= s.len(),
            s@ == end@,
            s.len() <= name.len(),
            shift == name.len() - s.len(),
            forall|k: int| 0 <= k < i ==> folded(#[trigger] name@[shift + k]) == folded(s@[k]),
        decreases s.len() - i,
    {
        if fold(name[shift + i]) != fold(s[i]) {
            assert(folded(name@[name@.len() - end@.len() + i]) != folded(end@[i as int]));
            return false;
        }
        i += 1;
    }
    true
}

/// Whether `name` is a name of the house rather than of a contributor: it
/// ends with ` (OCA)`, or starts with `OpenERP ` or `Odoo `.
pub open spec fn is_house_name(name: Seq<char>) -> bool {
    ends_like(name, " (OCA)"@) || starts_like(name, "OpenERP "@) || starts_like(name, "Odoo "@)
}

/// Whether `name` is the name of a machine rather than of a committer.
pub open spec fn is_machine_name(name: Seq<char>) -> bool {
    name == "Odoo Translation Bot"@ || name == "OCA-git-bot"@ || name == "Weblate"@ || name
        == "oca-ci"@
}

/// How many modules of the bucket `v` the author `author_id` is linked to.
pub open spec fn authored_in(
    links: Seq<module_author::Model>,
    modules: Seq<module::Model>,
    author_id: i64,
    v: u8,
) -> nat
    decreases links.len(),
{
    if links.len() == 0 {
        0
    } else {
        authored_in(links.drop_last(), modules, author_id, v) + if links.last().author_id.0
            == author_id && version_of(modules, links.last().module_id.0) == Some(v) {
            1nat
        } else {
            0nat
        }
    }
}

/// The score of the author at `i` in the bucket `v`: the number of modules of
/// the bucket, at most the greatest number of thirty-two bits; 0 for a name
/// of the house.
pub open spec fn author_score(store: Store, i: int, v: u8) -> u32 {
    if is_house_name(store.authors@[i].name@) {
        0
    } else {
        capped(authored_in(store.module_authors@, store.modules@, store.authors@[i].id, v))
    }
}

/// How many commits the committer `committer_id` has made to modules of the
/// bucket `v`.
pub open spec fn committed_in(
    links: Seq<module_committer::Model>,
    modules: Seq<module::Model>,
    committer_id: i64,
    v: u8,
) -> nat
    decreases links.len(),
{
    if links.len() == 0 {
        0
    } else {
        committed_in(links.drop_last(), modules, committer_id, v) + if links.last().committer_id.0
            == committer_id && version_of(modules, links.last().module_id.0) == Some(v) {
            links.last().commits as nat
        } else {
            0nat
        }
    }
}

/// The score of the committer at `i` in the bucket `v`: the number of
/// commits, at most the greatest number of thirty-two bits; 0 for a machine.
pub open spec fn committer_score(store: Store, i: int, v: u8) -> u32 {
    if is_machine_name(store.committers@[i].name@) {
        0
    } else {
        capped(
            committed_in(store.module_committers@, store.modules@, store.committers@[i].id, v),
        )
    }
}

/// The bucket of the module of each row of `module_authors`, one for one.
fn author_link_buckets(store: &Store) -> (r: Vec<Option<u8>>)
    requires
        store.wf(),
    ensures
        r@.len() == store.module_authors@.len(),
        forall|k: int|
            0 <= k < r@.len() ==> r@[k] == version_of(
                store.modules@,
                (#[trigger] store.module_authors@[k]).module_id.0,
            ),
{
    let mut r: Vec<Option<u8>> = Vec::new();
    let mut k: usize = 0;
    while k < store.module_authors.len()
        invariant
            k <= store.module_authors.len(),
            store.wf(),
            r@.len() == k,
            forall|w: int|
                0 <= w < k ==> r@[w] == version_of(
                    store.modules@,
                    (#[trigger] store.module_authors@[w]).module_id.0,
                ),
        decreases store.module_authors.len() - k,
    {
        r.push(bucket_of(store, store.module_authors[k].module_id.0));
        k += 1;
    }
    r
}

/// The bucket of the module of each row of `module_committers`, one for one.
fn committer_link_buckets(store: &Store) -> (r: Vec<Option<u8>>)
    requires
        store.wf(),
    ensures
        r@.len() == store.module_committers@.len(),
        forall|k: int|
            0 <= k < r@.len() ==> r@[k] == version_of(
                store.modules@,
                (#[trigger] store.module_committers@[k]).module_id.0,
            ),
{
    let mut r: Vec<Option<u8>> = Vec::new();
    let mut k: usize = 0;
    while k < store.module_committers.len()
        invariant
            k <= store.module_committers.len(),
            store.wf(),
            r@.len() == k,
            forall|w: int|
                0 <= w < k ==> r@[w] == version_of(
                    store.modules@,
                    (#[trigger] store.module_committers@[w]).module_id.0,
                ),
        decreases store.module_committers.len() - k,
    {
        r.push(bucket_of(store, store.module_committers[k].module_id.0));
        k += 1;
    }
    r
}

/// The scores of the authors in the bucket `v`, one for one.
fn author_scores(store: &Store, buckets: &Vec<Option<u8>>, v: u8) -> (r: Vec<u32>)
    requires
        buckets@.len() == store.module_authors@.len(),
        forall|k: int|
            0 <= k < buckets@.len() ==> buckets@[k] == version_of(
                store.modules@,
                (#[trigger] store.module_authors@[k]).module_id.0,
            ),
    ensures
        r@.len() == store.authors@.len(),
        forall|i: int| 0 <= i < r@.len() ==> #[trigger] r@[i] == author_score(*store, i, v),
{
    let mut r: Vec<u32> = Vec::new();
    let mut i: usize = 0;
    while i < store.authors.len()
        invariant
            i <= store.authors.len(),
            buckets@.len() == store.module_authors@.len(),
            forall|k: int|
                0 <= k < buckets@.len() ==> buckets@[k] == version_of(
                    store.modules@,
                    (#[trigger] store.module_authors@[k]).module_id.0,
                ),
            r@.len() == i,
            forall|w: int| 0 <= w < i ==> #[trigger] r@[w] == author_score(*store, w, v),
        decreases store.authors.len() - i,
    {
        let name = chars_of(store.authors[i].name.as_str());
        let house = has_end(&name, " (OCA)") || has_start(&name, "OpenERP ") || has_start(
            &name,
            "Odoo ",
        );
        let mut n: u32 = 0;
        if !house {
            let mut k: usize = 0;
            proof {
                assert(store.module_authors@.take(0) =~= Seq::<module_author::Model>::empty());
            }
            while k < store.module_authors.len()
                invariant
                    k <= store.module_authors.len(),
                    i < store.authors.len(),
                    buckets@.len() == store.module_authors@.len(),
                    forall|w: int|
                        0 <= w < buckets@.len() ==> buckets@[w] == version_of(
                            store.modules@,
                            (#[trigger] store.module_authors@[w]).module_id.0,
                        ),
                    n == capped(
                        authored_in(
                            store.module_authors@.take(k as int),
                            store.modules@,
                            store.authors@[i as int].id,
                            v,
                        ),
                    ),
                decreases store.module_authors.len() - k,
            {
                proof {
                    assert(store.module_authors@.take(k + 1).drop_last()
                        =~= store.module_authors@.take(k as int));
                    assert(store.module_authors@.take(k + 1).last() == store.module_authors@[k as int]);
                }
                let counts = store.module_authors[k].author_id.0 == store.authors[i].id && (
                match buckets[k] {
                    Some(b) => b == v,
                    None => false,
                });
                if counts && n < u32::MAX {
                    n += 1;
                }
                k += 1;
            }
            proof {
                assert(store.module_authors@.take(store.module_authors@.len() as int)
                    =~= store.module_authors@);
            }
        }
        r.push(n);
        i += 1;
    }
    r
}

/// The scores of the committers in the bucket `v`, one for one.
fn committer_scores(store: &Store, buckets: &Vec<Option<u8>>, v: u8) -> (r: Vec<u32>)
    requires
        buckets@.len() == store.module_committers@.len(),
        forall|k: int|
            0 <= k < buckets@.len() ==> buckets@[k] == version_of(
                store.modules@,
                (#[trigger] store.module_committers@[k]).module_id.0,
            ),
    ensures
        r@.len() == store.committers@.len(),
        forall|i: int| 0 <= i < r@.len() ==> #[trigger] r@[i] == committer_score(*store, i, v),
{
    let mut r: Vec<u32> = Vec::new();
    let mut i: usize = 0;
    while i < store.committers.len()
        invariant
            i <= store.committers.len(),
            buckets@.len() == store.module_committers@.len(),
            forall|k: int|
                0 <= k < buckets@.len() ==> buckets@[k] == version_of(
                    store.modules@,
                    (#[trigger] store.module_committers@[k]).module_id.0,
                ),
            r@.len() == i,
            forall|w: int| 0 <= w < i ==> #[trigger] r@[w] == committer_score(*store, w, v),
        decreases store.committers.len() - i,
    {
        let name = store.committers[i].name.as_str();
        let machine = same_text(name, "Odoo Translation Bot") || same_text(name, "OCA-git-bot")
            || same_text(name, "Weblate") || same_text(name, "oca-ci");
        let mut n: u32 = 0;
        if !machine {
            let mut k: usize = 0;
            proof {
                assert(store.module_committers@.take(0) =~= Seq::<
                    module_committer::Model,
                >::empty());
            }
            while k < store.module_committers.len()
                invariant
                    k <= store.module_committers.len(),
                    i < store.committers.len(),
                    buckets@.len() == store.module_committers@.len(),
                    forall|w: int|
                        0 <= w < buckets@.len() ==> buckets@[w] == version_of(
                            store.modules@,
                            (#[trigger] store.module_committers@[w]).module_id.0,
                        ),
                    n == capped(
                        committed_in(
                            store.module_committers@.take(k as int),
                            store.modules@,
                            store.committers@[i as int].id,
                            v,
                        ),
                    ),
                decreases store.module_committers.len() - k,
            {
                proof {
                    assert(store.module_committers@.take(k + 1).drop_last()
                        =~= store.module_committers@.take(k as int));
                    assert(store.module_committers@.take(k + 1).last()
                        == store.module_committers@[k as int]);
                }
                let counts = store.module_committers[k].committer_id.0 == store.committers[i].id
                    && (match buckets[k] {
                    Some(b) => b == v,
                    None => false,
                });
                if counts {
                    let more = store.module_committers[k].commits;
                    n = if more > u32::MAX - n {
                        u32::MAX
                    } else {
                        n + more
                    };
                }
                k += 1;
            }
            proof {
                assert(store.module_committers@.take(store.module_committers@.len() as int)
                    =~= store.module_committers@);
            }
        }
        r.push(n);
        i += 1;
    }
    r
}

/// Whether the score at `i` of the table at `x` is among the first five of
/// its table: it is more than nothing, and its rank is 5 at most.
pub open spec fn is_placed(tables: Seq<Vec<u32>>, x: int, i: int) -> bool {
    &&& 0 <= x < tables.len()
    &&& 0 <= i < tables[x]@.len()
    &&& tables[x]@[i] > 0
    &&& rank_in(tables[x]@, i) <= 5
}

/// Whether `place` names a score that is among the first five of its table,
/// with its rank.
pub open spec fn is_place(tables: Seq<Vec<u32>>, place: (usize, usize, u16)) -> bool {
    is_placed(tables, place.0 as int, place.1 as int) && place.2 == rank_in(
        tables[place.0 as int]@,
        place.1 as int,
    )
}

/// Whether `places` has the score at `i` of the table at `x`.
pub open spec fn has_place(places: Seq<(usize, usize, u16)>, x: int, i: int) -> bool {
    exists|k: int| 0 <= k < places.len() && (#[trigger] places[k]).0 == x && places[k].1 == i
}

/// The scores that are among the first five of their table, each with its
/// table, its place in the table and its rank, those of the first rank
/// first.
pub fn top_five(tables: &Vec<Vec<u32>>) -> (r: Vec<(usize, usize, u16)>)
    ensures
        forall|k: int| 0 <= k < r@.len() ==> is_place(tables@, #[trigger] r@[k]),
        forall|a: int, b: int| 0 <= a < b < r@.len() ==> (#[trigger] r@[a]).2 <= (#[trigger] r@[b]).2,
        forall|x: int, i: int| #[trigger] is_placed(tables@, x, i) ==> has_place(r@, x, i),
{
    let mut r: Vec<(usize, usize, u16)> = Vec::new();
    let mut rank: u16 = 1;
    while rank <= 5
        invariant
            1 <= rank <= 6,
            forall|k: int|
                0 <= k < r@.len() ==> is_place(tables@, #[trigger] r@[k]) && r@[k].2 < rank,
            forall|a: int, b: int|
                0 <= a < b < r@.len() ==> (#[trigger] r@[a]).2 <= (#[trigger] r@[b]).2,
            forall|x: int, i: int|
                #[trigger] is_placed(tables@, x, i) && rank_in(tables@[x]@, i) < rank
                    ==> has_place(r@, x, i),
        decreases 6 - rank,
    {
        let mut x: usize = 0;
        while x < tables.len()
            invariant
                x <= tables.len(),
                1 <= rank <= 5,
                forall|k: int|
                    0 <= k < r@.len() ==> is_place(tables@, #[trigger] r@[k]) && r@[k].2 <= rank,
                forall|a: int, b: int|
                    0 <= a < b < r@.len() ==> (#[trigger] r@[a]).2 <= (#[trigger] r@[b]).2,
                forall|y: int, i: int|
                    #[trigger] is_placed(tables@, y, i) && (rank_in(tables@[y]@, i) < rank || (
                    rank_in(tables@[y]@, i) == rank && y < x)) ==> has_place(r@, y, i),
            decreases tables.len() - x,
        {
            let mut i: usize = 0;
            while i < tables[x].len()
                invariant
                    i <= tables@[x as int]@.len(),
                    x < tables.len(),
                    1 <= rank <= 5,
                    forall|k: int|
                        0 <= k < r@.len() ==> is_place(tables@, #[trigger] r@[k]) && r@[k].2
                            <= rank,
                    forall|a: int, b: int|
                        0 <= a < b < r@.len() ==> (#[trigger] r@[a]).2 <= (#[trigger] r@[b]).2,
                    forall|y: int, j: int|
                        #[trigger] is_placed(tables@, y, j) && (rank_in(tables@[y]@, j) < rank || (
                        rank_in(tables@[y]@, j) == rank && (y < x || (y == x && j < i))))
                            ==> has_place(r@, y, j),
                decreases tables@[x as int]@.len() - i,
            {
                let ghost before = r@;
                if tables[x][i] > 0 && rank_at(&tables[x], i) == rank {
                    r.push((x, i, rank));
                    proof {
                        assert forall|k: int| 0 <= k < before.len() implies r@[k] == before[k] by {}
                        assert(has_place(r@, x as int, i as int)) by {
                            assert(r@[before.len() as int].0 == x && r@[before.len() as int].1 == i);
                        }
                    }
                }
                proof {
                    assert forall|y: int, j: int|
                        #[trigger] is_placed(tables@, y, j) && (rank_in(tables@[y]@, j) < rank || (
                        rank_in(tables@[y]@, j) == rank && (y < x || (y == x && j < i + 1))))
                        implies has_place(r@, y, j) by {
                        if y == x && j == i {
                        } else {
                            assert(has_place(before, y, j));
                            let k = choose|k: int|
                                0 <= k < before.len() && (#[trigger] before[k]).0 == y
                                    && before[k].1 == j;
                            assert(r@[k] == before[k]);
                        }
                    }
                }
                i += 1;
            }
            x += 1;
        }
        rank += 1;
    }
    r
}

/// A bucket that a module belongs to has modules.
proof fn lemma_bucket_has(modules: Seq<module::Model>, j: int)
    requires
        0 <= j < modules.len(),
    ensures
        module::modules_in(modules, modules[j].version_odoo) > 0,
    decreases modules.len(),
{
    if j < modules.len() - 1 {
        assert(modules.drop_last()[j] == modules[j]);
        lemma_bucket_has(modules.drop_last(), j);
    } else {
        assert(modules.last() == modules[j]);
    }
}

/// Whether the author at `i` has a name of the house.
pub open spec fn is_house_author(store: Store, i: int) -> bool {
    is_house_name(store.authors@[i].name@)
}

/// Whether the committer at `i` is a machine.
pub open spec fn is_machine_committer(store: Store, i: int) -> bool {
    is_machine_name(store.committers@[i].name@)
}

/// The scores of the authors in the bucket `v`, one for one.
pub open spec fn author_scores_in(store: Store, v: u8) -> Seq<u32> {
    Seq::new(store.authors@.len(), |i: int| author_score(store, i, v))
}

/// Whether the author at `i` is among the first five of the bucket `v`.
pub open spec fn is_top_author(store: Store, i: int, v: u8) -> bool {
    &&& 0 <= i < store.authors@.len()
    &&& author_score(store, i, v) > 0
    &&& rank_in(author_scores_in(store, v), i) <= 5
}

/// Whether `row` gives an author who is among the first five of a bucket,
/// with the number of modules and the rank.
pub open spec fn is_author_row(row: ModuleRankContributorInfo, store: Store) -> bool {
    exists|i: int|
        #[trigger] is_top_author(store, i, row.version_odoo) && store.authors@[i].name@
            == row.contrib_name@ && row.count == author_score(store, i, row.version_odoo) && row.rank
            == rank_in(author_scores_in(store, row.version_odoo), i)
}

/// Whether `rows` has a row for the author at `i` in the bucket `v`.
pub open spec fn has_author_row(rows: Seq<ModuleRankContributorInfo>, store: Store, i: int, v: u8) -> bool {
    exists|k: int|
        0 <= k < rows.len() && (#[trigger] rows[k]).version_odoo == v && rows[k].contrib_name@
            == store.authors@[i].name@
}

/// An author with a score in a bucket has a link to a module of the bucket.
proof fn lemma_author_bucket(
    links: Seq<module_author::Model>,
    modules: Seq<module::Model>,
    id: i64,
    v: u8,
)
    requires
        authored_in(links, modules, id, v) > 0,
    ensures
        module::modules_in(modules, v) > 0,
    decreases links.len(),
{
    if links.len() > 0 {
        if links.last().author_id.0 == id && version_of(modules, links.last().module_id.0)
            == Some(v) {
            let j = choose|j: int|
                0 <= j < modules.len() && (#[trigger] modules[j]).id == links.last().module_id.0;
            lemma_bucket_has(modules, j);
        } else {
            lemma_author_bucket(links.drop_last(), modules, id, v);
        }
    }
}

/// The contributors who stand first: for each bucket, those of the first five ranks, with
/// the number of modules and the rank, those of the first rank first.
pub fn rank_contributor(store: &Store) -> (r: Vec<ModuleRankContributorInfo>)
    requires
        store.wf(),
    ensures
        forall|k: int| 0 <= k < r@.len() ==> is_author_row(#[trigger] r@[k], *store),
        forall|a: int, b: int|
            0 <= a < b < r@.len() ==> (#[trigger] r@[a]).rank <= (#[trigger] r@[b]).rank,
        forall|i: int, v: u8|
            #[trigger] is_top_author(*store, i, v) ==> has_author_row(r@, *store, i, v),
{
    let buckets = author_link_buckets(store);
    let versions = module::get_odoo_versions(store);
    let mut tables: Vec<Vec<u32>> = Vec::new();
    let mut x: usize = 0;
    while x < versions.len()
        invariant
            x <= versions.len(),
            buckets@.len() == store.module_authors@.len(),
            forall|k: int|
                0 <= k < buckets@.len() ==> buckets@[k] == version_of(
                    store.modules@,
                    (#[trigger] store.module_authors@[k]).module_id.0,
                ),
            tables@.len() == x,
            forall|y: int|
                0 <= y < x ==> (#[trigger] tables@[y])@ == author_scores_in(*store, versions@[y]),
        decreases versions.len() - x,
    {
        let scores = author_scores(store, &buckets, versions[x]);
        assert(scores@ =~= author_scores_in(*store, versions@[x as int]));
        let ghost before = tables@;
        tables.push(scores);
        assert forall|y: int| 0 <= y < before.len() implies tables@[y] == before[y] by {}
        x += 1;
    }
    let places = top_five(&tables);
    let mut r: Vec<ModuleRankContributorInfo> = Vec::new();
    let mut k: usize = 0;
    while k < places.len()
        invariant
            k <= places.len(),
            tables@.len() == versions@.len(),
            forall|y: int|
                0 <= y < tables@.len() ==> (#[trigger] tables@[y])@ == author_scores_in(
                    *store,
                    versions@[y],
                ),
            forall|w: int| 0 <= w < places@.len() ==> is_place(tables@, #[trigger] places@[w]),
            r@.len() == k,
            forall|w: int|
                0 <= w < k ==> is_author_row(#[trigger] r@[w], *store) && r@[w].rank
                    == places@[w].2 && r@[w].version_odoo == versions@[places@[w].0 as int]
                    && r@[w].contrib_name@ == store.authors@[places@[w].1 as int].name@,
        decreases places.len() - k,
    {
        let (y, i, rank) = places[k];
        proof {
            assert(is_place(tables@, places@[k as int]));
            assert(tables@[y as int]@ == author_scores_in(*store, versions@[y as int]));
            assert(is_top_author(*store, i as int, versions@[y as int]));
        }
        let ghost before = r@;
        r.push(
            ModuleRankContributorInfo {
                count: tables[y][i],
                version_odoo: versions[y],
                contrib_name: store.authors[i].name.clone(),
                rank,
            },
        );
        proof {
            assert forall|w: int| 0 <= w < before.len() implies r@[w] == before[w] by {}
            let row = r@[before.len() as int];
            let v = versions@[y as int];
            assert(author_scores_in(*store, v)[i as int] == author_score(*store, i as int, v));
            assert(row.version_odoo == v);
            assert(row.count == author_score(*store, i as int, v));
            assert(row.rank == rank_in(author_scores_in(*store, v), i as int));
            assert(row.contrib_name@ == store.authors@[i as int].name@);
            assert(is_top_author(*store, i as int, row.version_odoo));
            assert(is_author_row(row, *store));
        }
        k += 1;
    }
    proof {
        assert forall|a: int, b: int| 0 <= a < b < r@.len() implies (#[trigger] r@[a]).rank <= (
        #[trigger] r@[b]).rank by {
            assert(places@[a].2 <= places@[b].2);
        }
        assert forall|i: int, v: u8| #[trigger] is_top_author(*store, i, v) implies has_author_row(
            r@,
            *store,
            i,
            v,
        ) by {
            if !is_house_author(*store, i) {
                lemma_author_bucket(
                    store.module_authors@,
                    store.modules@,
                    store.authors@[i].id,
                    v,
                );
            }
            assert(versions@.contains(v));
            let y = choose|y: int| 0 <= y < versions@.len() && versions@[y] == v;
            assert(tables@[y]@ == author_scores_in(*store, v));
            assert(is_placed(tables@, y, i));
            assert(has_place(places@, y, i));
            let w = choose|w: int|
                0 <= w < places@.len() && (#[trigger] places@[w]).0 == y && places@[w].1 == i;
            assert(r@[w].version_odoo == v);
        }
    }
    r
}

/// The scores of the committers in the bucket `v`, one for one.
pub open spec fn committer_scores_in(store: Store, v: u8) -> Seq<u32> {
    Seq::new(store.committers@.len(), |i: int| committer_score(store, i, v))
}

/// Whether the committer at `i` is among the first five of the bucket `v`.
pub open spec fn is_top_committer(store: Store, i: int, v: u8) -> bool {
    &&& 0 <= i < store.committers@.len()
    &&& committer_score(store, i, v) > 0
    &&& rank_in(committer_scores_in(store, v), i) <= 5
}

/// Whether `row` gives a committer who is among the first five of a bucket,
/// with the number of commits and the rank.
pub open spec fn is_committer_row(row: ModuleRankCommitterInfo, store: Store) -> bool {
    exists|i: int|
        #[trigger] is_top_committer(store, i, row.version_odoo) && store.committers@[i].name@
            == row.committer_name@ && row.count == committer_score(store, i, row.version_odoo) && row.rank
            == rank_in(committer_scores_in(store, row.version_odoo), i)
}

/// Whether `rows` has a row for the committer at `i` in the bucket `v`.
pub open spec fn has_committer_row(rows: Seq<ModuleRankCommitterInfo>, store: Store, i: int, v: u8) -> bool {
    exists|k: int|
        0 <= k < rows.len() && (#[trigger] rows[k]).version_odoo == v && rows[k].committer_name@
            == store.committers@[i].name@
}

/// A committer with a score in a bucket has a link to a module of the bucket.
proof fn lemma_committer_bucket(
    links: Seq<module_committer::Model>,
    modules: Seq<module::Model>,
    id: i64,
    v: u8,
)
    requires
        committed_in(links, modules, id, v) > 0,
    ensures
        module::modules_in(modules, v) > 0,
    decreases links.len(),
{
    if links.len() > 0 {
        if links.last().committer_id.0 == id && version_of(modules, links.last().module_id.0)
            == Some(v) {
            let j = choose|j: int|
                0 <= j < modules.len() && (#[trigger] modules[j]).id == links.last().module_id.0;
            lemma_bucket_has(modules, j);
        } else {
            lemma_committer_bucket(links.drop_last(), modules, id, v);
        }
    }
}

/// The committers who stand first: for each bucket, those of the first five ranks, with
/// the number of commits and the rank, those of the first rank first.
pub fn rank_committer(store: &Store) -> (r: Vec<ModuleRankCommitterInfo>)
    requires
        store.wf(),
    ensures
        forall|k: int| 0 <= k < r@.len() ==> is_committer_row(#[trigger] r@[k], *store),
        forall|a: int, b: int|
            0 <= a < b < r@.len() ==> (#[trigger] r@[a]).rank <= (#[trigger] r@[b]).rank,
        forall|i: int, v: u8|
            #[trigger] is_top_committer(*store, i, v) ==> has_committer_row(r@, *store, i, v),
{
    let buckets = committer_link_buckets(store);
    let versions = module::get_odoo_versions(store);
    let mut tables: Vec<Vec<u32>> = Vec::new();
    let mut x: usize = 0;
    while x < versions.len()
        invariant
            x <= versions.len(),
            buckets@.len() == store.module_committers@.len(),
            forall|k: int|
                0 <= k < buckets@.len() ==> buckets@[k] == version_of(
                    store.modules@,
                    (#[trigger] store.module_committers@[k]).module_id.0,
                ),
            tables@.len() == x,
            forall|y: int|
                0 <= y < x ==> (#[trigger] tables@[y])@ == committer_scores_in(*store, versions@[y]),
        decreases versions.len() - x,
    {
        let scores = committer_scores(store, &buckets, versions[x]);
        assert(scores@ =~= committer_scores_in(*store, versions@[x as int]));
        let ghost before = tables@;
        tables.push(scores);
        assert forall|y: int| 0 <= y < before.len() implies tables@[y] == before[y] by {}
        x += 1;
    }
    let places = top_five(&tables);
    let mut r: Vec<ModuleRankCommitterInfo> = Vec::new();
    let mut k: usize = 0;
    while k < places.len()
        invariant
            k <= places.len(),
            tables@.len() == versions@.len(),
            forall|y: int|
                0 <= y < tables@.len() ==> (#[trigger] tables@[y])@ == committer_scores_in(
                    *store,
                    versions@[y],
                ),
            forall|w: int| 0 <= w < places@.len() ==> is_place(tables@, #[trigger] places@[w]),
            r@.len() == k,
            forall|w: int|
                0 <= w < k ==> is_committer_row(#[trigger] r@[w], *store) && r@[w].rank
                    == places@[w].2 && r@[w].version_odoo == versions@[places@[w].0 as int]
                    && r@[w].committer_name@ == store.committers@[places@[w].1 as int].name@,
        decreases places.len() - k,
    {
        let (y, i, rank) = places[k];
        proof {
            assert(is_place(tables@, places@[k as int]));
            assert(tables@[y as int]@ == committer_scores_in(*store, versions@[y as int]));
            assert(is_top_committer(*store, i as int, versions@[y as int]));
        }
        let ghost before = r@;
        r.push(
            ModuleRankCommitterInfo {
                count: tables[y][i],
                version_odoo: versions[y],
                committer_name: store.committers[i].name.clone(),
                rank,
            },
        );
        proof {
            assert forall|w: int| 0 <= w < before.len() implies r@[w] == before[w] by {}
            let row = r@[before.len() as int];
            let v = versions@[y as int];
            assert(committer_scores_in(*store, v)[i as int] == committer_score(*store, i as int, v));
            assert(row.version_odoo == v);
            assert(row.count == committer_score(*store, i as int, v));
            assert(row.rank == rank_in(committer_scores_in(*store, v), i as int));
            assert(row.committer_name@ == store.committers@[i as int].name@);
            assert(is_top_committer(*store, i as int, row.version_odoo));
            assert(is_committer_row(row, *store));
        }
        k += 1;
    }
    proof {
        assert forall|a: int, b: int| 0 <= a < b < r@.len() implies (#[trigger] r@[a]).rank <= (
        #[trigger] r@[b]).rank by {
            assert(places@[a].2 <= places@[b].2);
        }
        assert forall|i: int, v: u8| #[trigger] is_top_committer(*store, i, v) implies has_committer_row(
            r@,
            *store,
            i,
            v,
        ) by {
            if !is_machine_committer(*store, i) {
                lemma_committer_bucket(
                    store.module_committers@,
                    store.modules@,
                    store.committers@[i].id,
                    v,
                );
            }
            assert(versions@.contains(v));
            let y = choose|y: int| 0 <= y < versions@.len() && versions@[y] == v;
            assert(tables@[y]@ == committer_scores_in(*store, v));
            assert(is_placed(tables@, y, i));
            assert(has_place(places@, y, i));
            let w = choose|w: int|
                0 <= w < places@.len() && (#[trigger] places@[w]).0 == y && places@[w].1 == i;
            assert(r@[w].version_odoo == v);
        }
    }
    r
}

/// The identity of the organization of the module `m`.
pub open spec fn org_of(store: Store, m: module::Model) -> i64 {
    gh_repository::org_id_of(store.repositories@, m.gh_repository_id.0)
}

/// How many of the modules `rows` belong to the organization `org_id` and
/// the bucket `v`.
pub open spec fn org_modules_in(store: Store, rows: Seq<module::Model>, org_id: i64, v: u8) -> nat
    decreases rows.len(),
{
    if rows.len() == 0 {
        0
    } else {
        org_modules_in(store, rows.drop_last(), org_id, v) + if rows.last().version_odoo == v
            && org_of(store, rows.last()) == org_id {
            1nat
        } else {
            0nat
        }
    }
}

/// How many modules the organization at `i` has in the bucket `v`, at most
/// the greatest number of thirty-two bits.
pub open spec fn org_count(store: Store, i: int, v: u8) -> u32 {
    capped(org_modules_in(store, store.modules@, store.organizations@[i].id, v))
}

/// Whether `row` gives the number of modules of an organization in a bucket
/// in which it has modules.
pub open spec fn is_org_row(row: ModuleCountByOrganizationInfo, store: Store) -> bool {
    exists|i: int|
        0 <= i < store.organizations@.len() && (#[trigger] store.organizations@[i]).name@
            == row.org_name@ && row.count == org_count(store, i, row.version_odoo) && row.count
            > 0
}

/// Whether `rows` has a row for the organization at `i` in the bucket `v`.
pub open spec fn has_org_row(
    rows: Seq<ModuleCountByOrganizationInfo>,
    store: Store,
    i: int,
    v: u8,
) -> bool {
    exists|k: int|
        0 <= k < rows.len() && (#[trigger] rows[k]).version_odoo == v && rows[k].org_name@
            == store.organizations@[i].name@
}

/// The organization of each module, one for one.
fn module_orgs(store: &Store) -> (r: Vec<i64>)
    requires
        store.wf(),
    ensures
        r@.len() == store.modules@.len(),
        forall|k: int| 0 <= k < r@.len() ==> r@[k] == org_of(*store, #[trigger] store.modules@[k]),
{
    let mut r: Vec<i64> = Vec::new();
    let mut k: usize = 0;
    while k < store.modules.len()
        invariant
            k <= store.modules.len(),
            store.wf(),
            r@.len() == k,
            forall|w: int| 0 <= w < k ==> r@[w] == org_of(*store, #[trigger] store.modules@[w]),
        decreases store.modules.len() - k,
    {
        let repo = gh_repository::get_by_id(store, &store.modules[k].gh_repository_id.0);
        proof {
            assert(gh_repository::has(
                store.repositories@,
                store.modules@[k as int].gh_repository_id.0,
                store.modules@[k as int].gh_repository_id.1@,
            ));
            let i = choose|i: int|
                0 <= i < store.repositories@.len() && store.repositories@[i] == repo->0;
            gh_repository::lemma_org_id_of(store.repositories@, i);
        }
        let id = match repo {
            Some(found) => found.gh_organization_id.0,
            None => 0,
        };
        r.push(id);
        k += 1;
    }
    r
}

fn count_of_org(store: &Store, orgs: &Vec<i64>, org_id: i64, v: u8) -> (r: u32)
    requires
        orgs@.len() == store.modules@.len(),
        forall|k: int| 0 <= k < orgs@.len() ==> orgs@[k] == org_of(*store, #[trigger] store.modules@[k]),
    ensures
        r == capped(org_modules_in(*store, store.modules@, org_id, v)),
{
    let mut r: u32 = 0;
    let mut k: usize = 0;
    proof {
        assert(store.modules@.take(0) =~= Seq::<module::Model>::empty());
    }
    while k < store.modules.len()
        invariant
            k <= store.modules.len(),
            orgs@.len() == store.modules@.len(),
            forall|w: int|
                0 <= w < orgs@.len() ==> orgs@[w] == org_of(*store, #[trigger] store.modules@[w]),
            r == capped(org_modules_in(*store, store.modules@.take(k as int), org_id, v)),
        decreases store.modules.len() - k,
    {
        proof {
            assert(store.modules@.take(k + 1).drop_last() =~= store.modules@.take(k as int));
            assert(store.modules@.take(k + 1).last() == store.modules@[k as int]);
        }
        if store.modules[k].version_odoo == v && orgs[k] == org_id && r < u32::MAX {
            r += 1;
        }
        k += 1;
    }
    proof {
        assert(store.modules@.take(store.modules@.len() as int) =~= store.modules@);
    }
    r
}

/// An organization with modules in a bucket belongs to a bucket that has
/// modules.
proof fn lemma_org_bucket(store: Store, rows: Seq<module::Model>, org_id: i64, v: u8)
    requires
        org_modules_in(store, rows, org_id, v) > 0,
    ensures
        module::modules_in(rows, v) > 0,
    decreases rows.len(),
{
    if rows.len() > 0 {
        if !(rows.last().version_odoo == v && org_of(store, rows.last()) == org_id) {
            lemma_org_bucket(store, rows.drop_last(), org_id, v);
        }
    }
}

/// How many modules each organization has in each bucket: one entry for
/// each organization and bucket in which the organization has modules, the
/// greatest number first.
pub fn count_organization(store: &Store) -> (r: Vec<ModuleCountByOrganizationInfo>)
    requires
        store.wf(),
    ensures
        forall|k: int| 0 <= k < r@.len() ==> is_org_row(#[trigger] r@[k], *store),
        forall|a: int, b: int|
            0 <= a < b < r@.len() ==> (#[trigger] r@[a]).count >= (#[trigger] r@[b]).count,
        forall|i: int, v: u8|
            0 <= i < store.organizations@.len() && #[trigger] org_count(*store, i, v) > 0
                ==> has_org_row(r@, *store, i, v),
{
    let orgs = module_orgs(store);
    let versions = module::get_odoo_versions(store);
    let mut r: Vec<ModuleCountByOrganizationInfo> = Vec::new();
    let mut i: usize = 0;
    while i < store.organizations.len()
        invariant
            i <= store.organizations.len(),
            orgs@.len() == store.modules@.len(),
            forall|k: int|
                0 <= k < orgs@.len() ==> orgs@[k] == org_of(*store, #[trigger] store.modules@[k]),
            forall|v: u8| versions@.contains(v) <==> module::modules_in(store.modules@, v) > 0,
            forall|k: int| 0 <= k < r@.len() ==> is_org_row(#[trigger] r@[k], *store),
            forall|a: int, b: int|
                0 <= a < b < r@.len() ==> (#[trigger] r@[a]).count >= (#[trigger] r@[b]).count,
            forall|j: int, v: u8|
                0 <= j < i && #[trigger] org_count(*store, j, v) > 0 ==> has_org_row(
                    r@,
                    *store,
                    j,
                    v,
                ),
        decreases store.organizations.len() - i,
    {
        let mut x: usize = 0;
        while x < versions.len()
            invariant
                x <= versions.len(),
                i < store.organizations.len(),
                orgs@.len() == store.modules@.len(),
                forall|k: int|
                    0 <= k < orgs@.len() ==> orgs@[k] == org_of(
                        *store,
                        #[trigger] store.modules@[k],
                    ),
                forall|k: int| 0 <= k < r@.len() ==> is_org_row(#[trigger] r@[k], *store),
                forall|a: int, b: int|
                    0 <= a < b < r@.len() ==> (#[trigger] r@[a]).count >= (
                    #[trigger] r@[b]).count,
                forall|j: int, v: u8|
                    0 <= j < i && #[trigger] org_count(*store, j, v) > 0 ==> has_org_row(
                        r@,
                        *store,
                        j,
                        v,
                    ),
                forall|y: int|
                    0 <= y < x && org_count(*store, i as int, #[trigger] versions@[y]) > 0
                        ==> has_org_row(r@, *store, i as int, versions@[y]),
            decreases versions.len() - x,
        {
            let v = versions[x];
            let n = count_of_org(store, &orgs, store.organizations[i].id, v);
            if n > 0 {
                let mut at: usize = 0;
                while at < r.len() && r[at].count >= n
                    invariant
                        at <= r.len(),
                        forall|k: int| 0 <= k < at ==> (#[trigger] r@[k]).count >= n,
                    decreases r.len() - at,
                {
                    at += 1;
                }
                let ghost before = r@;
                r.insert(
                    at,
                    ModuleCountByOrganizationInfo {
                        count: n,
                        version_odoo: v,
                        org_name: store.organizations[i].name.clone(),
                    },
                );
                proof {
                    let after = r@;
                    assert forall|k: int| 0 <= k < after.len() implies #[trigger] after[k] == (
                    if k < at {
                        before[k]
                    } else if k == at {
                        after[at as int]
                    } else {
                        before[k - 1]
                    }) by {}
                    assert(is_org_row(after[at as int], *store)) by {
                        assert(store.organizations@[i as int].name@ == after[at as int].org_name@);
                    }
                    assert forall|k: int| 0 <= k < after.len() implies is_org_row(
                        #[trigger] after[k],
                        *store,
                    ) by {
                        if k < at {
                            assert(after[k] == before[k]);
                        } else if k > at {
                            assert(after[k] == before[k - 1]);
                        }
                    }
                    assert forall|a: int, b: int| 0 <= a < b < after.len() implies (
                    #[trigger] after[a]).count >= (#[trigger] after[b]).count by {
                        let a2 = if a < at {
                            a
                        } else {
                            a - 1
                        };
                        let b2 = if b < at {
                            b
                        } else {
                            b - 1
                        };
                        if a != at && b != at {
                            assert(after[a] == before[a2] && after[b] == before[b2]);
                        } else if a == at {
                            assert(after[b] == before[b - 1]);
                        } else {
                            assert(after[a] == before[a]);
                        }
                    }
                    assert forall|j: int, w: u8| #[trigger]
                        has_org_row(before, *store, j, w) implies has_org_row(after, *store, j, w) by {
                        let k = choose|k: int|
                            0 <= k < before.len() && (#[trigger] before[k]).version_odoo == w
                                && before[k].org_name@ == store.organizations@[j].name@;
                        if k < at {
                            assert(after[k] == before[k]);
                        } else {
                            assert(after[k + 1] == before[k]);
                        }
                    }
                    assert(has_org_row(after, *store, i as int, v)) by {
                        assert(after[at as int].version_odoo == v);
                    }
                    assert forall|j: int, w: u8|
                        0 <= j < i && #[trigger] org_count(*store, j, w) > 0 implies has_org_row(
                        after,
                        *store,
                        j,
                        w,
                    ) by {
                        assert(has_org_row(before, *store, j, w));
                    }
                    assert forall|y: int|
                        0 <= y < x + 1 && org_count(*store, i as int, #[trigger] versions@[y])
                            > 0 implies has_org_row(after, *store, i as int, versions@[y]) by {
                        if y < x {
                            assert(has_org_row(before, *store, i as int, versions@[y]));
                        }
                    }
                }
            }
            x += 1;
        }
        proof {
            assert forall|j: int, v: u8|
                0 <= j < i + 1 && #[trigger] org_count(*store, j, v) > 0 implies has_org_row(
                r@,
                *store,
                j,
                v,
            ) by {
                if j == i {
                    lemma_org_bucket(*store, store.modules@, store.organizations@[j].id, v);
                    assert(versions@.contains(v));
                    let y = choose|y: int| 0 <= y < versions@.len() && versions@[y] == v;
                    assert(org_count(*store, i as int, versions@[y]) > 0);
                }
            }
        }
        i += 1;
    }
    r
}

} // verus!
