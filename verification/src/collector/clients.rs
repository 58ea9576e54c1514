//! What the crawler asks of a source-control host, and when it stops
//! asking: the paths of its requests and the paging through the
//! repositories of an organization.

use crate::text::{append_decimal, decimal_text, split, split_on, lemma_split_on_nonempty, texts};
use vstd::prelude::*;
use vstd::string::*;
use vstd::utf8::encode_utf8;

verus! {

pub const GITHUB_API_VERSION: &'static str = "2022-11-28";

pub const GITHUB_BASE_URL: &'static str = "https://api.github.com/";

pub const GITHUB_LIMIT_PER_PAGE: usize = 50;

pub const GITHUB_LIMIT_PAGES: usize = 255;

pub const GITLAB_BASE_URL: &'static str = "https://gitlab.com/api/v4/";

pub const GITLAB_LIMIT_PER_PAGE: usize = 100;

pub const GITLAB_LIMIT_PAGES: usize = 255;

/// Whether the byte stands for itself in a percent-encoded text: a letter
/// or a digit of ASCII, or one of `-`, `.`, `_`, `~`.
pub open spec fn is_unreserved(b: u8) -> bool {
    ||| 0x30 <= b <= 0x39
    ||| 0x41 <= b <= 0x5a
    ||| 0x61 <= b <= 0x7a
    ||| b == 0x2d
    ||| b == 0x2e
    ||| b == 0x5f
    ||| b == 0x7e
}

/// The hexadecimal digit of `d`, in upper case.
pub open spec fn hex_digit(d: int) -> char {
    "0123456789ABCDEF"@[d]
}

/// What stands for the byte in a percent-encoded text: itself, or `%` and
/// its two hexadecimal digits.
pub open spec fn escaped_byte(b: u8) -> Seq<char> {
    if is_unreserved(b) {
        seq![b as char]
    } else {
        seq!['%', hex_digit(b as int / 16), hex_digit(b as int % 16)]
    }
}

/// The bytes, percent-encoded.
pub open spec fn percent_encoded(bytes: Seq<u8>) -> Seq<char>
    decreases bytes.len(),
{
    if bytes.len() == 0 {
        Seq::<char>::empty()
    } else {
        percent_encoded(bytes.drop_last()) + escaped_byte(bytes.last())
    }
}

/// `encode` of the crate `urlencoding`: the bytes of `data` in UTF-8, each
/// standing for itself where it is a letter or a digit of ASCII or one of
/// `-`, `.`, `_`, `~`, and else written as `%` and two hexadecimal digits in
/// upper case.
#[verifier::external_body]
fn encode(data: &str) -> (r: String)
    ensures
        r@ == percent_encoded(encode_utf8(data@)),
{
    urlencoding::encode(data).into_owned()
}

/// The path that lists a page of the repositories of an organization on
/// GitHub, the most recently updated first.
pub open spec fn github_repos_path(org_name: Seq<char>, per_page: nat, page: nat) -> Seq<char> {
    "orgs/"@ + org_name + "/repos?sort=updated&per_page="@ + decimal_text(per_page) + "&page="@
        + decimal_text(page)
}

/// The path that lists a page of the projects of a group on GitLab, the
/// most recently updated first; the group's name is percent-encoded.
pub open spec fn gitlab_repos_path(org_name: Seq<char>, per_page: nat, page: nat) -> Seq<char> {
    "groups/"@ + percent_encoded(encode_utf8(org_name)) + "/projects?sort=updated_desc&per_page="@
        + decimal_text(per_page) + "&page="@ + decimal_text(page) + "&simple=true"@
}

/// The path that lists page `page` of the repositories of `org_name` on
/// GitHub, `per_page` to a page.
pub fn github_org_repos_path(org_name: &str, per_page: &usize, page: &usize) -> (r: String)
    ensures
        r@ == github_repos_path(org_name@, *per_page as nat, *page as nat),
{
    let mut r = "orgs/".to_owned();
    r.append(org_name);
    r.append("/repos?sort=updated&per_page=");
    append_decimal(&mut r, *per_page as u64);
    r.append("&page=");
    append_decimal(&mut r, *page as u64);
    r
}

/// The path that lists page `page` of the projects of the group `org_name`
/// on GitLab, `per_page` to a page.
pub fn gitlab_org_repos_path(org_name: &str, per_page: &usize, page: &usize) -> (r: String)
    ensures
        r@ == gitlab_repos_path(org_name@, *per_page as nat, *page as nat),
{
    let mut r = "groups/".to_owned();
    let group = encode(org_name);
    r.append(group.as_str());
    r.append("/projects?sort=updated_desc&per_page=");
    append_decimal(&mut r, *per_page as u64);
    r.append("&page=");
    append_decimal(&mut r, *page as u64);
    r.append("&simple=true");
    r
}

/// The address of the GitLab that is asked: `base_url`, or that of
/// gitlab.com where `base_url` is empty.
pub fn gitlab_base_url(base_url: &str) -> (r: String)
    ensures
        r@ == if base_url@.len() == 0 {
            GITLAB_BASE_URL@
        } else {
            base_url@
        },
{
    if base_url.unicode_len() == 0 {
        GITLAB_BASE_URL.to_owned()
    } else {
        base_url.to_owned()
    }
}

/// What authorizes a request: the word `Bearer` and the token.
pub fn bearer(token: &str) -> (r: String)
    ensures
        r@ == "Bearer "@ + token@,
{
    let mut r = "Bearer ".to_owned();
    r.append(token);
    r
}

/// The owner of a project on GitLab: what stands before the first stroke
/// of its path with namespace.
pub fn gitlab_owner(path_with_namespace: &str) -> (r: String)
    ensures
        r@ == split_on(path_with_namespace@, '/')[0],
{
    let pieces = split(path_with_namespace, '/');
    proof {
        lemma_split_on_nonempty(path_with_namespace@, '/');
        assert(texts(pieces@)[0] == pieces@[0]@);
    }
    pieces[0].clone()
}

/// Whether a project that GitLab lists can be cloned: it has a name and an
/// address.
pub fn gitlab_is_listed(repo_name: &str, repo_http_url: &str) -> (r: bool)
    ensures
        r == (repo_name@.len() > 0 && repo_http_url@.len() > 0),
{
    repo_name.unicode_len() > 0 && repo_http_url.unicode_len() > 0
}

/// Whether a page is asked for: pages are numbered from one, and stay
/// below `limit`.
pub open spec fn is_asked(page: usize, limit: usize) -> bool {
    page < limit
}

/// The page to ask for after page `page` has come with `items` entries, or
/// none where the listing is at its end: the page was empty or not full, or
/// the next one would reach `limit`.
pub open spec fn page_after(page: usize, items: usize, per_page: usize, limit: usize) -> Option<usize> {
    if items == 0 || items < per_page || page + 1 >= limit {
        None
    } else {
        Some((page + 1) as usize)
    }
}

/// The first page to ask for, or none where `limit` allows no page.
pub fn first_page(limit: usize) -> (r: Option<usize>)
    ensures
        r == if is_asked(1, limit) {
            Some(1usize)
        } else {
            None
        },
{
    if 1 < limit {
        Some(1)
    } else {
        None
    }
}

/// The page to ask for after page `page` has come with `items` entries.
pub fn next_page(page: usize, items: usize, per_page: usize, limit: usize) -> (r: Option<usize>)
    requires
        is_asked(page, limit),
    ensures
        r == page_after(page, items, per_page, limit),
        r matches Some(p) ==> is_asked(p, limit) && p == page + 1,
{
    if items == 0 || items < per_page || page + 1 >= limit {
        None
    } else {
        Some(page + 1)
    }
}

} // verus!
