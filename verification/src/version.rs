//! Version buckets: the major release line of the tracked application, kept as
//! ten times its number (`160` for `16.0`), and the version text of a module.

use crate::text::{
    all_digits, append_decimal, chars_of, decimal_text, digit_char, digit_of, digits_value,
    is_digit, join_from, join_with, lemma_split_on_nonempty, split, split_on, texts,
};
use vstd::prelude::*;
use vstd::string::*;

verus! {

/// A bucket as text: the tens, a dot, the last digit.
pub open spec fn odoo_version_text(version: u8) -> Seq<char> {
    decimal_text((version / 10) as nat) + seq!['.'] + seq![digit_char((version % 10) as int)]
}

/// Writes a bucket as text: `160` gives `16.0`.
pub fn odoo_version_u8_to_string(version: &u8) -> (r: String)
    ensures
        r@ == odoo_version_text(*version),
{
    let v: u8 = *version;
    let mut r = String::new();
    append_decimal(&mut r, (v / 10) as u64);
    proof {
        reveal_strlit(".");
    }
    r.append(".");
    append_decimal(&mut r, (v % 10) as u64);
    proof {
        assert(decimal_text((v % 10) as nat) =~= seq![digit_char((v % 10) as int)]);
        assert(r@ =~= odoo_version_text(v));
    }
    r
}

/// Whether `whole` and `fraction` are the two sides of a plain decimal
/// number: digits only, and at least one digit between them.
pub open spec fn is_decimal_pair(whole: Seq<char>, fraction: Seq<char>) -> bool {
    &&& all_digits(whole)
    &&& all_digits(fraction)
    &&& whole.len() + fraction.len() > 0
}

/// Ten times the number `whole.fraction`, rounded down, and at most 255.
pub open spec fn bucket_of_pair(whole: Seq<char>, fraction: Seq<char>) -> int {
    let tenth: int = if fraction.len() > 0 {
        digits_value(fraction.take(1)) as int
    } else {
        0
    };
    let exact = digits_value(whole) * 10 + tenth;
    if exact > 255 {
        255
    } else {
        exact
    }
}

/// Whether `s` is a plain decimal number: digits, with at most one dot among
/// them.
pub open spec fn is_plain_decimal(s: Seq<char>) -> bool {
    let p = split_on(s, '.');
    if p.len() == 1 {
        is_decimal_pair(p[0], Seq::<char>::empty())
    } else {
        p.len() == 2 && is_decimal_pair(p[0], p[1])
    }
}

/// The bucket that the plain decimal number `s` names.
pub open spec fn bucket_of_text(s: Seq<char>) -> int {
    let p = split_on(s, '.');
    if p.len() == 1 {
        bucket_of_pair(p[0], Seq::<char>::empty())
    } else {
        bucket_of_pair(p[0], p[1])
    }
}

fn all_digits_in(c: &Vec<char>) -> (r: bool)
    ensures
        r == all_digits(c@),
{
    let mut i: usize = 0;
    while i < c.len()
        invariant
            i <= c.len(),
            forall|k: int| 0 <= k < i ==> is_digit(#[trigger] c@[k]),
        decreases c.len() - i,
    {
        if digit_of(c[i]).is_none() {
            return false;
        }
        i += 1;
    }
    true
}

/// The value of the digits `c`, or 1000 where it is 1000 or more.
fn capped_value(c: &Vec<char>) -> (r: u64)
    requires
        all_digits(c@),
    ensures
        digits_value(c@) < 1000 ==> r == digits_value(c@),
        digits_value(c@) >= 1000 ==> r == 1000,
{
    let mut acc: u64 = 0;
    let mut i: usize = 0;
    proof {
        assert(c@.take(0) =~= Seq::<char>::empty());
    }
    while i < c.len()
        invariant
            i <= c.len(),
            all_digits(c@),
            acc <= 1000,
            digits_value(c@.take(i as int)) < 1000 ==> acc == digits_value(c@.take(i as int)),
            digits_value(c@.take(i as int)) >= 1000 ==> acc == 1000,
        decreases c.len() - i,
    {
        proof {
            assert(c@.take(i + 1).drop_last() =~= c@.take(i as int));
            assert(c@.take(i + 1).last() == c@[i as int]);
        }
        let d = digit_of(c[i]);
        assert(d is Some);
        let next = acc * 10 + d.unwrap() as u64;
        acc = if next > 1000 {
            1000
        } else {
            next
        };
        i += 1;
    }
    proof {
        assert(c@.take(c.len() as int) =~= c@);
    }
    acc
}

/// The bucket of the number `whole.fraction`.
pub fn bucket_from_parts(whole: &str, fraction: &str) -> (r: Option<u8>)
    ensures
        r is Some <==> is_decimal_pair(whole@, fraction@),
        r is Some ==> r->0 == bucket_of_pair(whole@, fraction@),
{
    let w = chars_of(whole);
    let f = chars_of(fraction);
    if !all_digits_in(&w) || !all_digits_in(&f) || (w.len() == 0 && f.len() == 0) {
        return None;
    }
    let tens = capped_value(&w);
    let mut tenth: u64 = 0;
    if f.len() > 0 {
        let d = digit_of(f[0]);
        assert(d is Some);
        tenth = d.unwrap() as u64;
        proof {
            let one = fraction@.take(1);
            assert(one.drop_last() =~= Seq::<char>::empty());
            assert(one.last() == f@[0]);
            assert(digits_value(one.drop_last()) == 0);
        }
    }
    let exact = tens * 10 + tenth;
    if exact > 255 {
        Some(255)
    } else {
        Some(exact as u8)
    }
}

/// Reads a bucket from text, where the text is a plain decimal number.
pub fn parse_odoo_version(version: &str) -> (r: Option<u8>)
    ensures
        r is Some <==> is_plain_decimal(version@),
        r is Some ==> r->0 == bucket_of_text(version@),
{
    let p = split(version, '.');
    proof {
        lemma_split_on_nonempty(version@, '.');
        assert(texts(p@).len() == p.len());
        reveal_strlit("");
        assert(""@ =~= Seq::<char>::empty());
    }
    if p.len() == 1 {
        assert(texts(p@)[0] == p@[0]@);
        bucket_from_parts(p[0].as_str(), "")
    } else if p.len() == 2 {
        assert(texts(p@)[0] == p@[0]@);
        assert(texts(p@)[1] == p@[1]@);
        bucket_from_parts(p[0].as_str(), p[1].as_str())
    } else {
        None
    }
}

/// Reads a bucket from text: `16.0` gives `160`, `16` gives `160` too. Digits
/// behind the first one after the dot are dropped, and a number of 25.6 or
/// more gives 255.
pub fn odoo_version_string_to_u8(version: &str) -> (r: u8)
    requires
        is_plain_decimal(version@),
    ensures
        r == bucket_of_text(version@),
{
    let r = parse_odoo_version(version);
    r.unwrap()
}


/// A module's version text, taken apart: with four or more dotted parts the
/// first two name the bucket and the rest the module's own version.
pub struct OdooVersion {
    raw: String,
    version_odoo: u8,
    version_module: String,
}

/// Whether the version text `version` names its own bucket: it has more than
/// three dotted parts.
pub open spec fn names_bucket(version: Seq<char>) -> bool {
    split_on(version, '.').len() > 3
}

/// Whether the version text `version` can be taken apart: where it names its
/// bucket, its first two parts are digits.
pub open spec fn is_version_text(version: Seq<char>) -> bool {
    names_bucket(version) ==> is_decimal_pair(
        split_on(version, '.')[0],
        split_on(version, '.')[1],
    )
}

/// The bucket of the version text `version`, `default` where it names none.
pub open spec fn bucket_of_version(version: Seq<char>, default: u8) -> int {
    if names_bucket(version) {
        bucket_of_pair(split_on(version, '.')[0], split_on(version, '.')[1])
    } else {
        default as int
    }
}

/// The module's own version in the version text `version`.
pub open spec fn module_part_of_version(version: Seq<char>) -> Seq<char> {
    if names_bucket(version) {
        join_with(split_on(version, '.').skip(2), seq!['.'])
    } else {
        version
    }
}

impl OdooVersion {
    pub closed spec fn raw_text(&self) -> Seq<char> {
        self.raw@
    }

    pub closed spec fn bucket(&self) -> u8 {
        self.version_odoo
    }

    pub closed spec fn module_text(&self) -> Seq<char> {
        self.version_module@
    }

    /// Takes the version text apart, where that can be done.
    pub fn parse(version: &str, def_version: &u8) -> (r: Option<OdooVersion>)
        ensures
            r is Some <==> is_version_text(version@),
            r is Some ==> {
                &&& r->0.raw_text() == version@
                &&& r->0.bucket() == bucket_of_version(version@, *def_version)
                &&& r->0.module_text() == module_part_of_version(version@)
            },
    {
        let p = split(version, '.');
        proof {
            assert(texts(p@).len() == p.len());
        }
        if p.len() > 3 {
            assert(texts(p@)[0] == p@[0]@);
            assert(texts(p@)[1] == p@[1]@);
            match bucket_from_parts(p[0].as_str(), p[1].as_str()) {
                Some(version_odoo) => {
                    proof {
                        reveal_strlit(".");
                        assert("."@ =~= seq!['.']);
                    }
                    let version_module = join_from(&p, 2, ".");
                    Some(OdooVersion { raw: version.to_owned(), version_odoo, version_module })
                },
                None => None,
            }
        } else {
            Some(
                OdooVersion {
                    raw: version.to_owned(),
                    version_odoo: *def_version,
                    version_module: version.to_owned(),
                },
            )
        }
    }

    /// Takes the version text apart.
    pub fn new(version: &str, def_version: &u8) -> (r: OdooVersion)
        requires
            is_version_text(version@),
        ensures
            r.raw_text() == version@,
            r.bucket() == bucket_of_version(version@, *def_version),
            r.module_text() == module_part_of_version(version@),
    {
        let r = OdooVersion::parse(version, def_version);
        r.unwrap()
    }

    pub fn get_raw(&self) -> (r: &String)
        ensures
            r@ == self.raw_text(),
    {
        &self.raw
    }

    pub fn get_version_odoo(&self) -> (r: &u8)
        ensures
            *r == self.bucket(),
    {
        &self.version_odoo
    }

    pub fn get_version_module(&self) -> (r: &String)
        ensures
            r@ == self.module_text(),
    {
        &self.version_module
    }
}

} // verus!
