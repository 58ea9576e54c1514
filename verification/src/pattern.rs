//! Patterns: what a regular expression captures in a text.

use crate::text::{trim, trimmed};
use vstd::prelude::*;

verus! {

/// What the regular expression `pattern` captures in `text`, group by
/// group, the whole match first: none where `pattern` is no regular
/// expression or matches nowhere in `text`; within a match, none for a group
/// that took no part in it.
pub uninterp spec fn captured(pattern: Seq<char>, text: Seq<char>) -> Option<
    Seq<Option<Seq<char>>>,
>;

/// The groups `groups` as texts.
pub open spec fn group_texts(groups: Seq<Option<String>>) -> Seq<Option<Seq<char>>> {
    Seq::new(
        groups.len(),
        |i: int|
            match groups[i] {
                Some(s) => Some(s@),
                None => None,
            },
    )
}

/// The capture `r` as texts.
pub open spec fn capture_texts(r: Option<Vec<Option<String>>>) -> Option<Seq<Option<Seq<char>>>> {
    match r {
        Some(groups) => Some(group_texts(groups@)),
        None => None,
    }
}

/// `Regex::new` and `Regex::captures` of the crate `regex`: compiles
/// `pattern` and matches it against `text`, leftmost match first. Nothing is
/// proved of the outcome; it is only given its name, `captured`, which says
/// that the same pattern and text give the same groups.
#[verifier::external_body]
pub(crate) fn capture_groups(pattern: &str, text: &str) -> (r: Option<Vec<Option<String>>>)
    ensures
        capture_texts(r) == captured(pattern@, text@),
{
    match regex::Regex::new(pattern) {
        Ok(re) => re.captures(text).map(
            |caps| caps.iter().map(|group| group.map(|m| m.as_str().to_owned())).collect(),
        ),
        Err(_) => None,
    }
}

/// The text of the group `i` of a capture, trimmed; the empty text for a
/// group that the capture lacks.
pub open spec fn group_text(groups: Seq<Option<Seq<char>>>, i: int) -> Seq<char> {
    if 0 <= i < groups.len() {
        match groups[i] {
            Some(s) => trimmed(s),
            None => Seq::<char>::empty(),
        }
    } else {
        Seq::<char>::empty()
    }
}

/// The text of the group `i` of a capture, trimmed.
pub fn group(groups: &Vec<Option<String>>, i: usize) -> (r: String)
    ensures
        r@ == group_text(group_texts(groups@), i as int),
{
    if i < groups.len() {
        match &groups[i] {
            Some(s) => trim(s.as_str()),
            None => String::new(),
        }
    } else {
        String::new()
    }
}

} // verus!
