//! Lists of names: membership, difference and first occurrences, all by
//! content.

use crate::text::{same_text, split, split_on, texts, trim, trimmed};
use vstd::prelude::*;

verus! {

/// Whether `v` holds a string with the text of `s`.
pub fn holds_text(v: &Vec<String>, s: &str) -> (r: bool)
    ensures
        r == texts(v@).contains(s@),
{
    let mut i: usize = 0;
    while i < v.len()
        invariant
            i <= v.len(),
            forall|k: int| 0 <= k < i ==> texts(v@)[k] != s@,
        decreases v.len() - i,
    {
        if same_text(v[i].as_str(), s) {
            assert(texts(v@)[i as int] == s@);
            return true;
        }
        i += 1;
    }
    false
}

/// Whether `a` and `b` hold the same names, whatever their order and
/// however often.
pub open spec fn same_set(a: Seq<Seq<char>>, b: Seq<Seq<char>>) -> bool {
    forall|n: Seq<char>| a.contains(n) <==> b.contains(n)
}

/// Whether `a` and `b` hold the same names.
pub fn same_names(a: &Vec<String>, b: &Vec<String>) -> (r: bool)
    ensures
        r == same_set(texts(a@), texts(b@)),
{
    let mut i: usize = 0;
    while i < a.len()
        invariant
            i <= a.len(),
            forall|k: int| 0 <= k < i ==> texts(b@).contains(#[trigger] texts(a@)[k]),
        decreases a.len() - i,
    {
        if !holds_text(b, a[i].as_str()) {
            assert(texts(a@)[i as int] == a@[i as int]@);
            assert(texts(a@).contains(texts(a@)[i as int]));
            return false;
        }
        assert(texts(a@)[i as int] == a@[i as int]@);
        i += 1;
    }
    let mut j: usize = 0;
    while j < b.len()
        invariant
            j <= b.len(),
            forall|k: int| 0 <= k < a@.len() ==> texts(b@).contains(#[trigger] texts(a@)[k]),
            forall|k: int| 0 <= k < j ==> texts(a@).contains(#[trigger] texts(b@)[k]),
        decreases b.len() - j,
    {
        if !holds_text(a, b[j].as_str()) {
            assert(texts(b@)[j as int] == b@[j as int]@);
            assert(texts(b@).contains(texts(b@)[j as int]));
            return false;
        }
        assert(texts(b@)[j as int] == b@[j as int]@);
        j += 1;
    }
    proof {
        assert forall|n: Seq<char>| texts(a@).contains(n) <==> texts(b@).contains(n) by {
            if texts(a@).contains(n) {
                let k = choose|k: int| 0 <= k < texts(a@).len() && texts(a@)[k] == n;
            }
            if texts(b@).contains(n) {
                let k = choose|k: int| 0 <= k < texts(b@).len() && texts(b@)[k] == n;
            }
        }
    }
    true
}

/// The names of `a` that `b` does not hold, in the order of `a`.
pub open spec fn minus(a: Seq<Seq<char>>, b: Seq<Seq<char>>) -> Seq<Seq<char>>
    decreases a.len(),
{
    if a.len() == 0 {
        Seq::<Seq<char>>::empty()
    } else {
        let init = minus(a.drop_last(), b);
        if b.contains(a.last()) {
            init
        } else {
            init.push(a.last())
        }
    }
}

/// A name is in `minus(a, b)` where `a` holds it and `b` does not.
pub proof fn lemma_minus_contains(a: Seq<Seq<char>>, b: Seq<Seq<char>>, x: Seq<char>)
    ensures
        minus(a, b).contains(x) <==> a.contains(x) && !b.contains(x),
    decreases a.len(),
{
    if a.len() > 0 {
        let init = a.drop_last();
        lemma_minus_contains(init, b, x);
        if a.contains(x) {
            let i = choose|i: int| 0 <= i < a.len() && a[i] == x;
            if i < a.len() - 1 {
                assert(init[i] == x);
            }
        }
        if init.contains(x) {
            let i = choose|i: int| 0 <= i < init.len() && init[i] == x;
            assert(a[i] == x);
        }
        let m = minus(init, b);
        if !b.contains(a.last()) {
            assert(m.push(a.last())[m.len() as int] == a.last());
            if m.push(a.last()).contains(x) {
                let i = choose|i: int| 0 <= i < m.push(a.last()).len() && m.push(a.last())[i] == x;
                if i < m.len() {
                    assert(m[i] == x);
                }
            }
            if m.contains(x) {
                let i = choose|i: int| 0 <= i < m.len() && m[i] == x;
                assert(m.push(a.last())[i] == x);
            }
            assert(a[a.len() - 1] == a.last());
        }
    }
}

/// Where `b` holds every name of `a`, nothing is left of `a` without `b`.
pub proof fn lemma_minus_of_subset(a: Seq<Seq<char>>, b: Seq<Seq<char>>)
    requires
        forall|i: int| 0 <= i < a.len() ==> b.contains(#[trigger] a[i]),
    ensures
        minus(a, b) == Seq::<Seq<char>>::empty(),
    decreases a.len(),
{
    if a.len() > 0 {
        let init = a.drop_last();
        assert forall|i: int| 0 <= i < init.len() implies b.contains(#[trigger] init[i]) by {
            assert(init[i] == a[i]);
        }
        lemma_minus_of_subset(init, b);
        assert(b.contains(a[a.len() - 1]));
    }
}

/// A copy of the strings of `v`.
pub fn copy_names(v: &Vec<String>) -> (r: Vec<String>)
    ensures
        r@ == v@,
{
    let mut r: Vec<String> = Vec::new();
    let mut i: usize = 0;
    while i < v.len()
        invariant
            i <= v.len(),
            r@ == v@.take(i as int),
        decreases v.len() - i,
    {
        r.push(v[i].clone());
        assert(r@ =~= v@.take(i + 1));
        i += 1;
    }
    assert(v@.take(v.len() as int) =~= v@);
    r
}

/// The names of `a` that `b` does not hold, in the order of `a`.
pub fn difference(a: &Vec<String>, b: &Vec<String>) -> (r: Vec<String>)
    ensures
        texts(r@) == minus(texts(a@), texts(b@)),
{
    let mut r: Vec<String> = Vec::new();
    let mut i: usize = 0;
    proof {
        assert(texts(a@).take(0) =~= Seq::<Seq<char>>::empty());
        assert(texts(r@) =~= Seq::<Seq<char>>::empty());
    }
    while i < a.len()
        invariant
            i <= a.len(),
            texts(r@) == minus(texts(a@).take(i as int), texts(b@)),
        decreases a.len() - i,
    {
        proof {
            assert(texts(a@).take(i + 1).drop_last() =~= texts(a@).take(i as int));
            assert(texts(a@).take(i + 1).last() == a@[i as int]@);
        }
        if !holds_text(b, a[i].as_str()) {
            let ghost before = r@;
            r.push(a[i].clone());
            assert(texts(r@) =~= texts(before).push(a@[i as int]@));
        }
        i += 1;
    }
    assert(texts(a@).take(a.len() as int) =~= texts(a@));
    r
}

/// The first occurrence of each name of `a`, in the order of `a`.
pub open spec fn first_seen(a: Seq<Seq<char>>) -> Seq<Seq<char>>
    decreases a.len(),
{
    if a.len() == 0 {
        Seq::<Seq<char>>::empty()
    } else {
        let init = first_seen(a.drop_last());
        if init.contains(a.last()) {
            init
        } else {
            init.push(a.last())
        }
    }
}

/// Whether no name occurs twice in `a`.
pub open spec fn distinct(a: Seq<Seq<char>>) -> bool {
    forall|i: int, j: int| 0 <= i < j < a.len() ==> a[i] != a[j]
}

/// A name is among the first occurrences of `a` where `a` holds it.
pub proof fn lemma_first_seen_contains(a: Seq<Seq<char>>, x: Seq<char>)
    ensures
        first_seen(a).contains(x) <==> a.contains(x),
    decreases a.len(),
{
    if a.len() > 0 {
        let init = a.drop_last();
        lemma_first_seen_contains(init, x);
        lemma_first_seen_contains(init, a.last());
        let f = first_seen(init);
        if a.contains(x) {
            let i = choose|i: int| 0 <= i < a.len() && a[i] == x;
            if i < a.len() - 1 {
                assert(init[i] == x);
            }
        }
        if init.contains(x) {
            let i = choose|i: int| 0 <= i < init.len() && init[i] == x;
            assert(a[i] == x);
        }
        assert(a[a.len() - 1] == a.last());
        if !f.contains(a.last()) {
            let g = f.push(a.last());
            assert(g[f.len() as int] == a.last());
            if f.contains(x) {
                let i = choose|i: int| 0 <= i < f.len() && f[i] == x;
                assert(g[i] == x);
            }
            if g.contains(x) {
                let i = choose|i: int| 0 <= i < g.len() && g[i] == x;
                if i < f.len() {
                    assert(f[i] == x);
                }
            }
        }
    }
}

/// No name occurs twice among the first occurrences of `a`.
pub proof fn lemma_first_seen_distinct(a: Seq<Seq<char>>)
    ensures
        distinct(first_seen(a)),
    decreases a.len(),
{
    if a.len() > 0 {
        lemma_first_seen_distinct(a.drop_last());
        let f = first_seen(a.drop_last());
        if !f.contains(a.last()) {
            let g = f.push(a.last());
            assert forall|i: int, j: int| 0 <= i < j < g.len() implies g[i] != g[j] by {
                if j == f.len() {
                    assert(f[i] == g[i]);
                }
            }
        }
    }
}

/// The first occurrences of the first `i + 1` names of `a`, from those of
/// its first `i` names.
pub proof fn lemma_first_seen_step(a: Seq<Seq<char>>, i: int)
    requires
        0 <= i < a.len(),
    ensures
        first_seen(a.take(i + 1)) == if a.take(i).contains(a[i]) {
            first_seen(a.take(i))
        } else {
            first_seen(a.take(i)).push(a[i])
        },
{
    assert(a.take(i + 1).drop_last() =~= a.take(i));
    assert(a.take(i + 1).last() == a[i]);
    lemma_first_seen_contains(a.take(i), a[i]);
}

/// What a vector holds of its first names, one name on.
pub proof fn lemma_take_contains_step(a: Seq<Seq<char>>, i: int, x: Seq<char>)
    requires
        0 <= i < a.len(),
    ensures
        a.take(i + 1).contains(x) <==> a.take(i).contains(x) || a[i] == x,
{
    let s = a.take(i);
    let t = a.take(i + 1);
    if t.contains(x) {
        let k = choose|k: int| 0 <= k < t.len() && t[k] == x;
        if k < i {
            assert(s[k] == x);
        }
    }
    if s.contains(x) {
        let k = choose|k: int| 0 <= k < s.len() && s[k] == x;
        assert(t[k] == x);
    }
    assert(t[i] == a[i]);
}

/// What is left of `a` without `b` is no longer than `a`.
pub proof fn lemma_minus_len(a: Seq<Seq<char>>, b: Seq<Seq<char>>)
    ensures
        minus(a, b).len() <= a.len(),
    decreases a.len(),
{
    if a.len() > 0 {
        lemma_minus_len(a.drop_last(), b);
    }
}

/// The trimmed pieces of `pieces` that are not empty, in order.
pub open spec fn kept(pieces: Seq<Seq<char>>) -> Seq<Seq<char>>
    decreases pieces.len(),
{
    if pieces.len() == 0 {
        Seq::<Seq<char>>::empty()
    } else {
        let init = kept(pieces.drop_last());
        let name = trimmed(pieces.last());
        if name.len() == 0 {
            init
        } else {
            init.push(name)
        }
    }
}

/// The names that a text lists with commas between: each trimmed, the empty
/// ones left out.
pub open spec fn name_list(s: Seq<char>) -> Seq<Seq<char>> {
    kept(split_on(s, ','))
}

/// There are no more names than pieces.
pub proof fn lemma_kept_len(pieces: Seq<Seq<char>>)
    ensures
        kept(pieces).len() <= pieces.len(),
    decreases pieces.len(),
{
    if pieces.len() > 0 {
        lemma_kept_len(pieces.drop_last());
    }
}

/// The names that `s` lists with commas between.
pub fn names_in(s: &str) -> (r: Vec<String>)
    ensures
        texts(r@) == name_list(s@),
{
    let pieces = split(s, ',');
    let ghost all = texts(pieces@);
    let mut r: Vec<String> = Vec::new();
    let mut i: usize = 0;
    proof {
        assert(all.take(0) =~= Seq::<Seq<char>>::empty());
        assert(texts(r@) =~= Seq::<Seq<char>>::empty());
    }
    while i < pieces.len()
        invariant
            i <= pieces.len(),
            all == texts(pieces@),
            texts(r@) == kept(all.take(i as int)),
        decreases pieces.len() - i,
    {
        proof {
            assert(all.take(i + 1).drop_last() =~= all.take(i as int));
            assert(all.take(i + 1).last() == pieces@[i as int]@);
        }
        let name = trim(pieces[i].as_str());
        if !name.as_str().is_empty() {
            let ghost before = r@;
            r.push(name);
            assert(texts(r@) =~= texts(before).push(trimmed(pieces@[i as int]@)));
        }
        i += 1;
    }
    proof {
        assert(all.take(pieces@.len() as int) =~= all);
    }
    r
}

/// What is left of `a` without `b` holds no name twice where `a` holds none
/// twice.
pub proof fn lemma_minus_distinct(a: Seq<Seq<char>>, b: Seq<Seq<char>>)
    requires
        distinct(a),
    ensures
        distinct(minus(a, b)),
    decreases a.len(),
{
    if a.len() > 0 {
        let init = a.drop_last();
        assert forall|i: int, j: int| 0 <= i < j < init.len() implies init[i] != init[j] by {
            assert(init[i] == a[i] && init[j] == a[j]);
        }
        lemma_minus_distinct(init, b);
        let m = minus(init, b);
        if !b.contains(a.last()) {
            let g = m.push(a.last());
            assert forall|i: int, j: int| 0 <= i < j < g.len() implies g[i] != g[j] by {
                if j == m.len() {
                    assert(m.contains(m[i]));
                    lemma_minus_contains(init, b, m[i]);
                    let k = choose|k: int| 0 <= k < init.len() && init[k] == m[i];
                    assert(a[k] == init[k]);
                    assert(a[k] != a[a.len() - 1]);
                }
            }
        }
    }
}

/// Set difference, counted: where `a` holds no name twice, as many names are
/// left of `a` without `b` as the set of `a` has members outside the set of
/// `b`; and the first occurrences of what is left of `b` without `a` are as
/// many as the set of `b` has members outside the set of `a`.
pub proof fn lemma_difference_counts(a: Seq<Seq<char>>, b: Seq<Seq<char>>)
    requires
        distinct(a),
    ensures
        minus(a, b).len() == a.to_set().difference(b.to_set()).len(),
        first_seen(minus(b, a)).len() == b.to_set().difference(a.to_set()).len(),
{
    let gone = minus(a, b);
    lemma_minus_distinct(a, b);
    assert(gone.no_duplicates());
    gone.unique_seq_to_set();
    assert(gone.to_set() =~= a.to_set().difference(b.to_set())) by {
        assert forall|x: Seq<char>|
            gone.to_set().contains(x) <==> a.to_set().difference(b.to_set()).contains(x) by {
            lemma_minus_contains(a, b, x);
        }
    }
    let come = first_seen(minus(b, a));
    lemma_first_seen_distinct(minus(b, a));
    assert(come.no_duplicates());
    come.unique_seq_to_set();
    assert(come.to_set() =~= b.to_set().difference(a.to_set())) by {
        assert forall|x: Seq<char>|
            come.to_set().contains(x) <==> b.to_set().difference(a.to_set()).contains(x) by {
            lemma_first_seen_contains(minus(b, a), x);
            lemma_minus_contains(b, a, x);
        }
    }
}

/// `unique` of `array_tool::vec::Uniq`, on strings: a copy of the vector in
/// which each string stands once, at the place of its first occurrence. The
/// crate walks the copy from its end and, for each string, removes the equal
/// ones behind it; what is proved of callers rests on that.
#[verifier::external_body]
fn unique(v: &Vec<String>) -> (r: Vec<String>)
    ensures
        texts(r@) == first_seen(texts(v@)),
{
    array_tool::vec::Uniq::unique(v)
}

/// The names of `v`, each once, in the order in which they first occur.
pub fn without_repeats(v: &Vec<String>) -> (r: Vec<String>)
    ensures
        texts(r@) == first_seen(texts(v@)),
        distinct(texts(r@)),
        forall|n: Seq<char>| texts(r@).contains(n) <==> texts(v@).contains(n),
{
    let r = unique(v);
    proof {
        lemma_first_seen_distinct(texts(v@));
        assert forall|n: Seq<char>| texts(r@).contains(n) <==> texts(v@).contains(n) by {
            lemma_first_seen_contains(texts(v@), n);
        }
    }
    r
}

} // verus!
