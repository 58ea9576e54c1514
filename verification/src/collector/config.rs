//! The settings of one run of the collector, read from its arguments.

use crate::text::{split, split_on, texts, lemma_split_on_nonempty};
use crate::version::{bucket_from_parts, bucket_of_pair, is_decimal_pair};
use vstd::prelude::*;
use vstd::string::*;

verus! {

/// What one run scans: an organization or a single repository (`mode` is
/// `org` or `repo`, `src` names it), on which branch, into which directory,
/// for which bucket, and below which paths of each repository.
#[derive(Debug)]
pub struct OGHCollectorConfig {
    mode: String,
    src: String,
    token: String,
    branch: String,
    repos_path: String,
    version_odoo: u8,
    read_paths: Vec<String>,
}

/// What the source argument names: the text before its first colon.
pub open spec fn source_of(raw_src: Seq<char>) -> Seq<char> {
    split_on(raw_src, ':')[0]
}

/// Whether `s` holds the character `c`.
pub open spec fn holds_char(s: Seq<char>, c: char) -> bool {
    exists|i: int| 0 <= i < s.len() && s[i] == c
}

/// The mode that the source argument asks for: `repo` where it names an
/// organization and a repository with a stroke between, else `org`.
pub open spec fn mode_of(raw_src: Seq<char>) -> Seq<char> {
    if holds_char(source_of(raw_src), '/') {
        "repo"@
    } else {
        "org"@
    }
}

/// The paths that the source argument asks to read: where it has one colon,
/// the pieces behind the colon with commas between; else the one empty path.
pub open spec fn read_paths_of(raw_src: Seq<char>) -> Seq<Seq<char>> {
    let parts = split_on(raw_src, ':');
    if parts.len() == 2 {
        split_on(parts[1], ',')
    } else {
        seq![Seq::<char>::empty()]
    }
}

/// Whether the branch names a bucket: its first dotted part, or its first
/// two where it has more than one, are a plain decimal number.
pub open spec fn names_bucket(branch: Seq<char>) -> bool {
    let parts = split_on(branch, '.');
    if parts.len() == 1 {
        is_decimal_pair(parts[0], Seq::<char>::empty())
    } else {
        is_decimal_pair(parts[0], parts[1])
    }
}

/// The bucket that the branch names.
pub open spec fn bucket_of_branch(branch: Seq<char>) -> int {
    let parts = split_on(branch, '.');
    if parts.len() == 1 {
        bucket_of_pair(parts[0], Seq::<char>::empty())
    } else {
        bucket_of_pair(parts[0], parts[1])
    }
}

fn has_char(s: &str, c: char) -> (r: bool)
    ensures
        r == holds_char(s@, c),
{
    let v = crate::text::chars_of(s);
    let mut i: usize = 0;
    while i < v.len()
        invariant
            i <= v.len(),
            v@ == s@,
            forall|k: int| 0 <= k < i ==> v@[k] != c,
        decreases v.len() - i,
    {
        if v[i] == c {
            return true;
        }
        i += 1;
    }
    false
}

impl OGHCollectorConfig {
    pub closed spec fn mode_text(&self) -> Seq<char> {
        self.mode@
    }

    pub closed spec fn source_text(&self) -> Seq<char> {
        self.src@
    }

    pub closed spec fn token_text(&self) -> Seq<char> {
        self.token@
    }

    pub closed spec fn branch_text(&self) -> Seq<char> {
        self.branch@
    }

    pub closed spec fn repos_path_text(&self) -> Seq<char> {
        self.repos_path@
    }

    pub closed spec fn bucket(&self) -> u8 {
        self.version_odoo
    }

    pub closed spec fn read_path_texts(&self) -> Seq<Seq<char>> {
        texts(self.read_paths@)
    }

    /// The settings that the source argument `raw_src` and the branch
    /// `branch` ask for, with the token and the directory for the clones as
    /// given; none where the branch names no bucket.
    pub fn from_parts(token: &str, raw_src: &str, branch: &str, repos_path: &str) -> (r: Option<
        OGHCollectorConfig,
    >)
        ensures
            r is Some <==> names_bucket(branch@),
            r matches Some(c) ==> {
                &&& c.mode_text() == mode_of(raw_src@)
                &&& c.source_text() == source_of(raw_src@)
                &&& c.token_text() == token@
                &&& c.branch_text() == branch@
                &&& c.repos_path_text() == repos_path@
                &&& c.bucket() == bucket_of_branch(branch@)
                &&& c.read_path_texts() == read_paths_of(raw_src@)
            },
    {
        let branch_parts = split(branch, '.');
        proof {
            lemma_split_on_nonempty(branch@, '.');
            assert(texts(branch_parts@).len() == branch_parts@.len());
            assert(texts(branch_parts@)[0] == branch_parts@[0]@);
            reveal_strlit("");
            assert(""@ =~= Seq::<char>::empty());
        }
        let bucket = if branch_parts.len() == 1 {
            bucket_from_parts(branch_parts[0].as_str(), "")
        } else {
            assert(texts(branch_parts@)[1] == branch_parts@[1]@);
            bucket_from_parts(branch_parts[0].as_str(), branch_parts[1].as_str())
        };
        let version_odoo = match bucket {
            Some(v) => v,
            None => {
                return None;
            },
        };
        let raw_src_parts = split(raw_src, ':');
        proof {
            lemma_split_on_nonempty(raw_src@, ':');
            assert(texts(raw_src_parts@).len() == raw_src_parts@.len());
            assert(texts(raw_src_parts@)[0] == raw_src_parts@[0]@);
        }
        let src = raw_src_parts[0].clone();
        let mode = if has_char(src.as_str(), '/') {
            "repo".to_owned()
        } else {
            "org".to_owned()
        };
        let read_paths = if raw_src_parts.len() == 2 {
            assert(texts(raw_src_parts@)[1] == raw_src_parts@[1]@);
            split(raw_src_parts[1].as_str(), ',')
        } else {
            let mut one: Vec<String> = Vec::new();
            one.push(String::new());
            assert(texts(one@) =~= seq![Seq::<char>::empty()]);
            one
        };
        Some(
            OGHCollectorConfig {
                mode,
                src,
                token: token.to_owned(),
                branch: branch.to_owned(),
                repos_path: repos_path.to_owned(),
                version_odoo,
                read_paths,
            },
        )
    }

    pub fn get_mode(&self) -> (r: &String)
        ensures
            r@ == self.mode_text(),
    {
        &self.mode
    }

    pub fn get_source(&self) -> (r: &String)
        ensures
            r@ == self.source_text(),
    {
        &self.src
    }

    pub fn get_token(&self) -> (r: &String)
        ensures
            r@ == self.token_text(),
    {
        &self.token
    }

    pub fn get_branch(&self) -> (r: &String)
        ensures
            r@ == self.branch_text(),
    {
        &self.branch
    }

    pub fn get_repos_path(&self) -> (r: &String)
        ensures
            r@ == self.repos_path_text(),
    {
        &self.repos_path
    }

    pub fn get_version_odoo(&self) -> (r: &u8)
        ensures
            *r == self.bucket(),
    {
        &self.version_odoo
    }

    pub fn get_read_paths(&self) -> (r: &Vec<String>)
        ensures
            texts(r@) == self.read_path_texts(),
    {
        &self.read_paths
    }
}

} // verus!
