//! A repository on disk, as the crawler leaves it.

use vstd::prelude::*;
use vstd::string::*;

verus! {

/// A cloned repository: its name, the organization that owns it, and the
/// directory that holds the clone.
#[derive(Debug)]
pub struct RepoInfo {
    pub name: String,
    pub org: String,
    pub clone_path: String,
}

impl RepoInfo {
    pub fn get_name(&self) -> (r: &str)
        ensures
            r@ == self.name@,
    {
        self.name.as_str()
    }

    pub fn get_org(&self) -> (r: &str)
        ensures
            r@ == self.org@,
    {
        self.org.as_str()
    }

    pub fn get_clone_path(&self) -> (r: &str)
        ensures
            r@ == self.clone_path@,
    {
        self.clone_path.as_str()
    }

    /// Where a repository is cloned to: `dest`, the organization and the
    /// repository's name, with strokes between.
    pub open spec fn path_under(dest: Seq<char>, org: Seq<char>, name: Seq<char>) -> Seq<char> {
        dest + "/"@ + org + "/"@ + name
    }

    /// The repository `repo_name` of `org_name`, cloned under `dest`.
    pub fn cloned(org_name: &str, repo_name: &str, dest: &str) -> (r: RepoInfo)
        ensures
            r.name@ == repo_name@,
            r.org@ == org_name@,
            r.clone_path@ == RepoInfo::path_under(dest@, org_name@, repo_name@),
    {
        let mut clone_path = String::new();
        clone_path.append(dest);
        clone_path.append("/");
        clone_path.append(org_name);
        clone_path.append("/");
        clone_path.append(repo_name);
        assert(clone_path@ =~= RepoInfo::path_under(dest@, org_name@, repo_name@));
        RepoInfo { name: repo_name.to_owned(), org: org_name.to_owned(), clone_path }
    }
}

} // verus!
