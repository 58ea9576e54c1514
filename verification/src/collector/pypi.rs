//! The release comparator: among the published releases of a package, the
//! one to look up where a module asks for a version below a bound.
//!
//! A version is cut at its dots into segments. A segment that is no number
//! of sixteen bits counts as -1, and -1 means "ignore this position". The
//! answer depends on the order in which the registry lists the releases: it
//! is the last listed release below the bound, not the greatest one.

use crate::pattern::{capture_groups, captured, group, group_text};
use crate::text::{
    all_digits, chars_of, digit_of, digits_value, has_stretch, holds_stretch, is_digit, split,
    split_on, texts,
};
use vstd::prelude::*;

verus! {

/// The digits of a segment: the segment without a sign in front.
pub open spec fn unsigned_part(s: Seq<char>) -> Seq<char> {
    if s.len() > 0 && (s[0] == '+' || s[0] == '-') {
        s.drop_first()
    } else {
        s
    }
}

/// The number that the segment `s` spells: an optional sign and digits,
/// within sixteen bits; -1 for anything else.
pub open spec fn segment_value(s: Seq<char>) -> int {
    let digits = unsigned_part(s);
    let value = if s.len() > 0 && s[0] == '-' {
        -(digits_value(digits) as int)
    } else {
        digits_value(digits) as int
    };
    if digits.len() > 0 && all_digits(digits) && -32768 <= value <= 32767 {
        value
    } else {
        -1
    }
}

/// The numbers of the segments of the version `v`.
pub open spec fn segments(v: Seq<char>) -> Seq<int> {
    let pieces = split_on(v, '.');
    Seq::new(pieces.len(), |i: int| segment_value(pieces[i]))
}

/// Whether `candidate` is below `bound` from the position `i` on: at the
/// first position from there where both hold a number and the numbers
/// differ, the candidate's is the smaller one. Positions where either holds
/// -1 are passed over, and so are positions that one of the two lacks.
pub open spec fn below_from(candidate: Seq<int>, bound: Seq<int>, i: int) -> bool
    decreases candidate.len() - i,
{
    if i < 0 || i >= candidate.len() || i >= bound.len() {
        false
    } else if candidate[i] == -1 || bound[i] == -1 {
        below_from(candidate, bound, i + 1)
    } else if candidate[i] < bound[i] {
        true
    } else if candidate[i] > bound[i] {
        false
    } else {
        below_from(candidate, bound, i + 1)
    }
}

/// Whether the release `candidate` is below the bound `bound`.
pub open spec fn is_below(candidate: Seq<char>, bound: Seq<char>) -> bool {
    below_from(segments(candidate), segments(bound), 0)
}

/// The number that the segment `s` spells.
pub fn parse_segment(s: &str) -> (r: i16)
    ensures
        r == segment_value(s@),
{
    let c = chars_of(s);
    let n = c.len();
    if n == 0 {
        return -1;
    }
    let negative = c[0] == '-';
    let start: usize = if c[0] == '+' || c[0] == '-' {
        1
    } else {
        0
    };
    let ghost digits = unsigned_part(s@);
    assert(digits =~= s@.subrange(start as int, n as int));
    if start == n {
        return -1;
    }
    let mut acc: i32 = 0;
    let mut i: usize = start;
    proof {
        assert(digits.take(0) =~= Seq::<char>::empty());
    }
    while i < n
        invariant
            start <= i <= n,
            n == c.len(),
            c@ == s@,
            digits == s@.subrange(start as int, n as int),
            digits == unsigned_part(s@),
            negative == (s@[0] == '-'),
            all_digits(digits.take(i - start)),
            0 <= acc <= 40000,
            digits_value(digits.take(i - start)) < 40000 ==> acc == digits_value(
                digits.take(i - start),
            ),
            digits_value(digits.take(i - start)) >= 40000 ==> acc == 40000,
        decreases n - i,
    {
        proof {
            assert(digits.take(i + 1 - start).drop_last() =~= digits.take(i - start));
            assert(digits.take(i + 1 - start).last() == c@[i as int]);
        }
        match digit_of(c[i]) {
            Some(d) => {
                let next = acc * 10 + d as i32;
                acc = if next > 40000 {
                    40000
                } else {
                    next
                };
                proof {
                    let t = digits.take(i + 1 - start);
                    assert forall|k: int| 0 <= k < t.len() implies is_digit(#[trigger] t[k]) by {
                        if k < i - start {
                            assert(digits.take(i - start)[k] == t[k]);
                        }
                    }
                }
            },
            None => {
                proof {
                    assert(digits[i - start] == c@[i as int]);
                    assert(!is_digit(digits[i - start]));
                    assert(!all_digits(digits));
                }
                return -1;
            },
        }
        i += 1;
    }
    proof {
        assert(digits.take(n - start) =~= digits);
    }
    if negative {
        if acc > 32768 {
            -1
        } else {
            (-acc) as i16
        }
    } else {
        if acc > 32767 {
            -1
        } else {
            acc as i16
        }
    }
}

/// The numbers of the segments of the version `v`.
pub fn parse_segments(v: &str) -> (r: Vec<i16>)
    ensures
        r@.len() == segments(v@).len(),
        forall|i: int| 0 <= i < r@.len() ==> r@[i] == segments(v@)[i],
{
    let pieces = split(v, '.');
    let mut r: Vec<i16> = Vec::new();
    let mut i: usize = 0;
    while i < pieces.len()
        invariant
            i <= pieces.len(),
            texts(pieces@) == split_on(v@, '.'),
            r@.len() == i,
            forall|k: int| 0 <= k < i ==> r@[k] == segments(v@)[k],
        decreases pieces.len() - i,
    {
        assert(texts(pieces@)[i as int] == pieces@[i as int]@);
        r.push(parse_segment(pieces[i].as_str()));
        i += 1;
    }
    assert(texts(pieces@).len() == pieces@.len());
    r
}

fn is_below_parsed(candidate: &Vec<i16>, bound: &Vec<i16>) -> (r: bool)
    ensures
        r == below_from(
            Seq::new(candidate@.len(), |i: int| candidate@[i] as int),
            Seq::new(bound@.len(), |i: int| bound@[i] as int),
            0,
        ),
{
    let ghost c = Seq::new(candidate@.len(), |i: int| candidate@[i] as int);
    let ghost b = Seq::new(bound@.len(), |i: int| bound@[i] as int);
    let mut i: usize = 0;
    while i < candidate.len() && i < bound.len()
        invariant
            i <= candidate.len(),
            c == Seq::new(candidate@.len(), |i: int| candidate@[i] as int),
            b == Seq::new(bound@.len(), |i: int| bound@[i] as int),
            below_from(c, b, 0) == below_from(c, b, i as int),
        decreases candidate.len() - i,
    {
        assert(c[i as int] == candidate@[i as int]);
        assert(b[i as int] == bound@[i as int]);
        if candidate[i] != -1 && bound[i] != -1 {
            if candidate[i] < bound[i] {
                return true;
            }
            if candidate[i] > bound[i] {
                return false;
            }
        }
        i += 1;
    }
    false
}

/// Where the last release below `bound` stands in `releases`; `releases.len()`
/// where none is below.
pub open spec fn last_below(releases: Seq<Seq<char>>, bound: Seq<char>) -> int
    decreases releases.len(),
{
    if releases.len() == 0 {
        0
    } else if is_below(releases.last(), bound) {
        releases.len() - 1
    } else {
        let i = last_below(releases.drop_last(), bound);
        if i == releases.len() - 1 {
            releases.len() as int
        } else {
            i
        }
    }
}

/// The last release of `releases` that is below `bound`, in the order in
/// which `releases` lists them; none where no release is below.
pub open spec fn nearest(releases: Seq<Seq<char>>, bound: Seq<char>) -> Option<Seq<char>> {
    let i = last_below(releases, bound);
    if 0 <= i < releases.len() {
        Some(releases[i])
    } else {
        None
    }
}

/// The last release below `bound` is below it, and no release behind it is.
pub proof fn lemma_last_below(releases: Seq<Seq<char>>, bound: Seq<char>)
    ensures
        0 <= last_below(releases, bound) <= releases.len(),
        last_below(releases, bound) < releases.len() ==> is_below(
            releases[last_below(releases, bound)],
            bound,
        ),
        forall|j: int|
            last_below(releases, bound) < j < releases.len() ==> !is_below(
                #[trigger] releases[j],
                bound,
            ),
        last_below(releases, bound) == releases.len() ==> forall|j: int|
            0 <= j < releases.len() ==> !is_below(#[trigger] releases[j], bound),
    decreases releases.len(),
{
    if releases.len() > 0 {
        let init = releases.drop_last();
        lemma_last_below(init, bound);
        assert forall|j: int| 0 <= j < init.len() implies init[j] == releases[j] by {}
    }
}

/// The release to look up for a package that has to stay below `bound`:
/// among `releases`, which holds the published releases in the order of the
/// registry, the last one that is below the bound.
pub fn nearest_version(bound: &str, releases: &Vec<String>) -> (r: Option<String>)
    ensures
        r is Some <==> nearest(texts(releases@), bound@) is Some,
        r matches Some(v) ==> nearest(texts(releases@), bound@) == Some(v@),
{
    let limit = parse_segments(bound);
    let ghost all = texts(releases@);
    let mut res: Option<String> = None;
    let mut i: usize = 0;
    proof {
        assert(all.take(0) =~= Seq::<Seq<char>>::empty());
    }
    while i < releases.len()
        invariant
            i <= releases.len(),
            all == texts(releases@),
            limit@.len() == segments(bound@).len(),
            forall|k: int| 0 <= k < limit@.len() ==> limit@[k] == segments(bound@)[k],
            res is Some <==> nearest(all.take(i as int), bound@) is Some,
            res matches Some(v) ==> nearest(all.take(i as int), bound@) == Some(v@),
        decreases releases.len() - i,
    {
        let candidate = parse_segments(releases[i].as_str());
        proof {
            assert(all.take(i + 1).drop_last() =~= all.take(i as int));
            assert(all.take(i + 1).last() == releases@[i as int]@);
            assert(Seq::new(candidate@.len(), |k: int| candidate@[k] as int) =~= segments(
                releases@[i as int]@,
            ));
            assert(Seq::new(limit@.len(), |k: int| limit@[k] as int) =~= segments(bound@));
            lemma_last_below(all.take(i as int), bound@);
            assert forall|k: int| 0 <= k < i implies all.take(i as int)[k] == all.take(i + 1)[k] by {}
        }
        if is_below_parsed(&candidate, &limit) {
            res = Some(releases[i].clone());
        }
        i += 1;
    }
    proof {
        assert(all.take(releases@.len() as int) =~= all);
    }
    res
}

/// What to ask the registry about a package that a module requires: the
/// package, the version that the requirement names, and whether that version
/// is a bound to stay below, so that the release to ask about is the nearest
/// one below it.
#[derive(Debug)]
pub struct OsvLookup {
    pub package: String,
    pub version: String,
    pub below: bool,
}

/// The pattern that takes a requirement apart: a name, a comparison, a
/// version.
pub open spec fn requirement_pattern() -> Seq<char> {
    "^([^><=]+).+?([^><=]+)$"@
}

/// Whether the requirement `dep` names a version to ask about: it pins one
/// with `==` or bounds one with `<`.
pub open spec fn names_version(dep: Seq<char>) -> bool {
    holds_stretch(dep, "=="@) || holds_stretch(dep, "<"@)
}

/// Whether the requirement `dep` asks to stay below its version: it has a
/// `<` and no `<=`.
pub open spec fn stays_below(dep: Seq<char>) -> bool {
    holds_stretch(dep, "<"@) && !holds_stretch(dep, "<="@)
}

/// What to ask about the requirement `dep`, given what the pattern captured
/// in it.
pub open spec fn lookup_of(dep: Seq<char>, groups: Option<Seq<Option<Seq<char>>>>) -> Option<
    (Seq<char>, Seq<char>, bool),
> {
    if !names_version(dep) {
        None
    } else {
        match groups {
            Some(g) => Some((group_text(g, 1), group_text(g, 2), stays_below(dep))),
            None => None,
        }
    }
}

impl OsvLookup {
    pub open spec fn view(&self) -> (Seq<char>, Seq<char>, bool) {
        (self.package@, self.version@, self.below)
    }

    /// What to ask about the requirement `dep`, where `groups` is what the
    /// pattern captured in it: nothing where the requirement names no
    /// version or the pattern did not match; else the first group as the
    /// package and the second as the version, both trimmed.
    pub fn from_capture(dep: &str, groups: &Option<Vec<Option<String>>>) -> (r: Option<OsvLookup>)
        ensures
            r is Some <==> lookup_of(dep@, crate::pattern::capture_texts(*groups)) is Some,
            r matches Some(l) ==> lookup_of(dep@, crate::pattern::capture_texts(*groups)) == Some(
                l.view(),
            ),
    {
        if !(has_stretch(dep, "==") || has_stretch(dep, "<")) {
            return None;
        }
        match groups {
            Some(g) => {
                let below = has_stretch(dep, "<") && !has_stretch(dep, "<=");
                Some(OsvLookup { package: group(g, 1), version: group(g, 2), below })
            },
            None => None,
        }
    }

    /// The version to ask the registry about, where `nearest` is the
    /// nearest release below the version of the requirement, asked for only
    /// where the requirement is a bound to stay below: the version of the
    /// requirement where it pins one; the nearest release where it is a
    /// bound; none, and nothing to ask, where it is a bound and no release is
    /// below it.
    pub fn version_to_ask(&self, nearest: Option<String>) -> (r: Option<String>)
        ensures
            r is Some <==> !self.below || nearest is Some,
            r matches Some(v) ==> v@ == if self.below {
                nearest->0@
            } else {
                self.version@
            },
    {
        if self.below {
            nearest
        } else {
            Some(self.version.clone())
        }
    }

    /// What to ask the registry about the requirement `dep`.
    pub fn for_requirement(dep: &str) -> (r: Option<OsvLookup>)
        ensures
            r is Some <==> lookup_of(dep@, captured(requirement_pattern(), dep@)) is Some,
            r matches Some(l) ==> lookup_of(dep@, captured(requirement_pattern(), dep@)) == Some(
                l.view(),
            ),
    {
        let groups = capture_groups("^([^><=]+).+?([^><=]+)$", dep);
        OsvLookup::from_capture(dep, &groups)
    }
}

/// Where the registry tells of a package: of one version of it where
/// `version` is given, else of the package with all its releases.
pub open spec fn package_address(package: Seq<char>, version: Option<Seq<char>>) -> Seq<char> {
    match version {
        Some(v) => "https://pypi.python.org/pypi/"@ + package + "/"@ + v + "/json"@,
        None => "https://pypi.python.org/pypi/"@ + package + "/json"@,
    }
}

/// Where the registry tells of the package `package`, or of its version
/// `version`.
pub fn package_url(package: &str, version: Option<&str>) -> (r: String)
    ensures
        r@ == package_address(
            package@,
            match version {
                Some(v) => Some(v@),
                None => None,
            },
        ),
{
    let mut r = "https://pypi.python.org/pypi/".to_owned();
    r.append(package);
    match version {
        Some(v) => {
            r.append("/");
            r.append(v);
        },
        None => {},
    }
    r.append("/json");
    r
}

} // verus!
