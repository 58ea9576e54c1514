//! What the analyzer makes of what it reads in a clone: the last commit of a
//! module from the log, the committers with their commits, and the module's
//! description with the defaults filled in.

use crate::models::module::ManifestInfo;
use crate::models::module_committer::counted_names;
use crate::names::{
    distinct, first_seen, lemma_first_seen_contains, lemma_first_seen_distinct,
    lemma_first_seen_step, without_repeats,
};
use crate::pattern::{capture_groups, captured, group, group_text, group_texts};
use crate::text::{join_from, join_with, lines, lines_of, same_text, texts};
use crate::version::{bucket_of_version, is_version_text, module_part_of_version, OdooVersion};
use vstd::prelude::*;
use vstd::string::*;

verus! {

/// The last commit that touched a module.
#[derive(Debug)]
pub struct GitInfo {
    pub last_commit_hash: String,
    pub last_commit_author: String,
    pub last_commit_date: String,
    pub last_commit_name: String,
    pub last_commit_partof: String,
}

/// The pattern that takes one entry of the log apart: hash, author, date,
/// subject, each behind two tildes, and the pull request that the body names
/// as `Part-of`.
pub open spec fn log_pattern() -> Seq<char> {
    "([0-9a-f]+)~~([^\n]+)~~([^\n]+)~~(.+)~~(?:[\\S\\s]+Part-of:\\s([^\n]+))?"@
}

impl GitInfo {
    /// Whether the commit is what `groups` holds: the first five groups
    /// behind the whole match, trimmed.
    pub open spec fn is_from(&self, groups: Seq<Option<Seq<char>>>) -> bool {
        &&& self.last_commit_hash@ == group_text(groups, 1)
        &&& self.last_commit_author@ == group_text(groups, 2)
        &&& self.last_commit_date@ == group_text(groups, 3)
        &&& self.last_commit_name@ == group_text(groups, 4)
        &&& self.last_commit_partof@ == group_text(groups, 5)
    }

    /// The commit that the groups of a matched log entry hold.
    pub fn from_capture(groups: &Vec<Option<String>>) -> (r: GitInfo)
        ensures
            r.is_from(group_texts(groups@)),
    {
        GitInfo {
            last_commit_hash: group(groups, 1),
            last_commit_author: group(groups, 2),
            last_commit_date: group(groups, 3),
            last_commit_name: group(groups, 4),
            last_commit_partof: group(groups, 5),
        }
    }

    /// The commit that the log entry `output` tells of; none where the entry
    /// is not of the expected form.
    pub fn parse(output: &str) -> (r: Option<GitInfo>)
        ensures
            r is Some <==> captured(log_pattern(), output@) is Some,
            r matches Some(info) ==> info.is_from(captured(log_pattern(), output@)->0),
    {
        let groups = capture_groups(
            "([0-9a-f]+)~~([^\n]+)~~([^\n]+)~~(.+)~~(?:[\\S\\s]+Part-of:\\s([^\n]+))?",
            output,
        );
        match groups {
            Some(g) => Some(GitInfo::from_capture(&g)),
            None => None,
        }
    }
}

/// How often `name` occurs among `lines`.
pub open spec fn occurrences(lines: Seq<Seq<char>>, name: Seq<char>) -> nat
    decreases lines.len(),
{
    if lines.len() == 0 {
        0
    } else {
        occurrences(lines.drop_last(), name) + if lines.last() == name {
            1nat
        } else {
            0nat
        }
    }
}

/// `n`, or the greatest number of thirty-two bits where `n` is greater.
pub open spec fn capped(n: nat) -> u32 {
    if n > u32::MAX {
        u32::MAX
    } else {
        n as u32
    }
}

/// The committers that the log `output` names, one to a line: each once, in
/// the order in which they first occur, with the number of lines that name
/// them.
pub fn committers_in(output: &str) -> (r: Vec<(String, u32)>)
    ensures
        counted_names(r@) == first_seen(lines_of(output@)),
        distinct(counted_names(r@)),
        forall|k: int|
            0 <= k < r@.len() ==> (#[trigger] r@[k]).1 == capped(
                occurrences(lines_of(output@), r@[k].0@),
            ),
{
    let all = lines(output);
    let ghost names = texts(all@);
    let mut r: Vec<(String, u32)> = Vec::new();
    let mut i: usize = 0;
    proof {
        assert(names.take(0) =~= Seq::<Seq<char>>::empty());
        assert(counted_names(r@) =~= first_seen(names.take(0)));
    }
    while i < all.len()
        invariant
            i <= all.len(),
            names == texts(all@),
            counted_names(r@) == first_seen(names.take(i as int)),
            forall|k: int|
                0 <= k < r@.len() ==> (#[trigger] r@[k]).1 == capped(
                    occurrences(names.take(i as int), r@[k].0@),
                ),
        decreases all.len() - i,
    {
        let ghost name = names[i as int];
        let ghost before = r@;
        assert(name == all@[i as int]@);
        proof {
            lemma_first_seen_step(names, i as int);
            lemma_first_seen_contains(names.take(i as int), name);
            lemma_first_seen_distinct(names.take(i as int));
            assert(names.take(i + 1).drop_last() =~= names.take(i as int));
            assert(names.take(i + 1).last() == name);
        }
        match place_of_counted(&r, all[i].as_str()) {
            Some(k) => {
                let count = if r[k].1 == u32::MAX {
                    u32::MAX
                } else {
                    r[k].1 + 1
                };
                let label = r[k].0.clone();
                r.set(k, (label, count));
                proof {
                    assert(counted_names(r@) =~= counted_names(before));
                    assert(counted_names(before)[k as int] == name);
                    assert forall|w: int| 0 <= w < r@.len() implies (#[trigger] r@[w]).1
                        == capped(occurrences(names.take(i + 1), r@[w].0@)) by {
                        assert(counted_names(before)[w] == before[w].0@);
                        if w != k {
                            assert(r@[w] == before[w]);
                            if w < k {
                                assert(counted_names(before)[w] != counted_names(before)[k as int]);
                            } else {
                                assert(counted_names(before)[k as int] != counted_names(before)[w]);
                            }
                        }
                    }
                }
            },
            None => {
                r.push((all[i].clone(), 1));
                proof {
                    assert(counted_names(r@) =~= counted_names(before).push(name));
                    lemma_absent(names.take(i as int), name);
                    assert forall|w: int| 0 <= w < r@.len() implies (#[trigger] r@[w]).1
                        == capped(occurrences(names.take(i + 1), r@[w].0@)) by {
                        if w < before.len() {
                            assert(r@[w] == before[w]);
                            assert(counted_names(before)[w] == before[w].0@);
                        }
                    }
                }
            },
        }
        i += 1;
    }
    proof {
        assert(names.take(all@.len() as int) =~= names);
        lemma_first_seen_distinct(names);
    }
    r
}

fn place_of_counted(r: &Vec<(String, u32)>, name: &str) -> (at: Option<usize>)
    ensures
        at is Some <==> counted_names(r@).contains(name@),
        at matches Some(k) ==> k < r@.len() && counted_names(r@)[k as int] == name@,
{
    let mut k: usize = 0;
    while k < r.len()
        invariant
            k <= r.len(),
            forall|w: int| 0 <= w < k ==> counted_names(r@)[w] != name@,
        decreases r.len() - k,
    {
        assert(counted_names(r@)[k as int] == r@[k as int].0@);
        if same_text(r[k].0.as_str(), name) {
            return Some(k);
        }
        k += 1;
    }
    None
}

/// A name that is not among the lines occurs no times.
proof fn lemma_absent(lines: Seq<Seq<char>>, name: Seq<char>)
    requires
        !lines.contains(name),
    ensures
        occurrences(lines, name) == 0,
    decreases lines.len(),
{
    if lines.len() > 0 {
        assert(lines[lines.len() - 1] == lines.last());
        assert forall|i: int| 0 <= i < lines.drop_last().len() implies lines.drop_last()[i]
            != name by {
            assert(lines[i] == lines.drop_last()[i]);
        }
        lemma_absent(lines.drop_last(), name);
    }
}

/// A yes or no of a description file: left out, given, or given as
/// something that is neither yes nor no.
#[derive(Debug, Clone, Copy, PartialEq, Eq, Structural)]
pub enum RawFlag {
    Missing,
    Is(bool),
    Other,
}

/// What the flag comes to: `default` where it is left out, and yes where it
/// is given as something that is neither yes nor no.
pub open spec fn flag_value(flag: RawFlag, default: bool) -> bool {
    match flag {
        RawFlag::Missing => default,
        RawFlag::Is(b) => b,
        RawFlag::Other => true,
    }
}

impl RawFlag {
    /// What the flag comes to, `default` where it is left out.
    pub fn or(self, default: bool) -> (r: bool)
        ensures
            r == flag_value(self, default),
    {
        match self {
            RawFlag::Missing => default,
            RawFlag::Is(b) => b,
            RawFlag::Other => true,
        }
    }
}

/// What a module says of itself in its description file, before defaults:
/// a field is none where the file leaves it out. `author` holds the names
/// that the file gives, one where it gives a single text, none where it
/// gives none; `maintainer` is none where the file names no maintainers.
/// The three lists of outside dependencies are as the file gives them.
#[derive(Debug)]
pub struct RawManifest {
    pub name: Option<String>,
    pub description: Option<String>,
    pub author: Vec<String>,
    pub website: Option<String>,
    pub license: Option<String>,
    pub category: Option<String>,
    pub auto_install: RawFlag,
    pub version: Option<String>,
    pub application: Option<bool>,
    pub installable: RawFlag,
    pub maintainer: Option<Vec<String>>,
    pub depends: Vec<String>,
    pub python: Vec<String>,
    pub bin: Vec<String>,
    pub deb: Vec<String>,
}

/// The text of `field`, `default` where the field is left out.
pub open spec fn text_or(field: Option<String>, default: Seq<char>) -> Seq<char> {
    match field {
        Some(s) => s@,
        None => default,
    }
}

fn or_text(field: &Option<String>, default: &str) -> (r: String)
    ensures
        r@ == text_or(*field, default@),
{
    match field {
        Some(s) => s.clone(),
        None => default.to_owned(),
    }
}

/// The names of `list`, with a comma and a blank between neighbours.
pub open spec fn listed(list: Seq<String>) -> Seq<char> {
    join_with(texts(list), ", "@)
}

/// Whether `info` is what the description `raw` of the module `module_name`
/// in the repository `repo_name` of `org_name` comes to, scanned for the
/// bucket `bucket`: the fields of the file, with an empty text for a name, a
/// description or a website that is left out, `LGPL-3` for the license,
/// `Uncategorized` for the category, no for `auto_install` and
/// `application`, yes for `installable` (and yes for either of the two that
/// is given as something else than yes or no), the authors as maintainers; the
/// bucket and the module's own version from the version text; the tools of
/// both lists of tools; each outside dependency once; and nothing yet of the
/// folder, the commit and the committers.
pub open spec fn is_described(
    info: ManifestInfo,
    raw: RawManifest,
    org_name: Seq<char>,
    repo_name: Seq<char>,
    module_name: Seq<char>,
    bucket: u8,
) -> bool {
    &&& info.technical_name@ == module_name
    &&& info.git_org@ == org_name
    &&& info.git_repo@ == repo_name
    &&& info.name@ == text_or(raw.name, ""@)
    &&& info.description@ == text_or(raw.description, ""@)
    &&& info.website@ == text_or(raw.website, ""@)
    &&& info.license@ == text_or(raw.license, "LGPL-3"@)
    &&& info.category@ == text_or(raw.category, "Uncategorized"@)
    &&& info.author@ == listed(raw.author@)
    &&& info.maintainer@ == match raw.maintainer {
        Some(list) => listed(list@),
        None => listed(raw.author@),
    }
    &&& info.auto_install == flag_value(raw.auto_install, false)
    &&& info.application == match raw.application {
        Some(b) => b,
        None => false,
    }
    &&& info.installable == flag_value(raw.installable, true)
    &&& info.version_odoo == match raw.version {
        Some(v) => bucket_of_version(v@, bucket),
        None => bucket as int,
    }
    &&& info.version_module@ == match raw.version {
        Some(v) => module_part_of_version(v@),
        None => "0.1.0"@,
    }
    &&& texts(info.depends@) == texts(raw.depends@)
    &&& texts(info.external_depends_python@) == first_seen(texts(raw.python@))
    &&& texts(info.external_depends_bin@) == first_seen(texts(raw.bin@) + texts(raw.deb@))
    &&& info.folder_size == 0
    &&& info.last_commit_hash@.len() == 0
    &&& info.last_commit_author@.len() == 0
    &&& info.last_commit_date@.len() == 0
    &&& info.last_commit_name@.len() == 0
    &&& info.last_commit_partof@.len() == 0
    &&& info.committers@.len() == 0
}

/// What the description `raw` of the module `module_name` in the repository
/// `repo_name` of `org_name` comes to, scanned for the bucket `bucket`; none
/// where the version text cannot be taken apart.
pub fn read_manifest(
    raw: &RawManifest,
    org_name: &str,
    repo_name: &str,
    module_name: &str,
    bucket: u8,
) -> (r: Option<ManifestInfo>)
    ensures
        r is Some <==> (raw.version matches Some(v) ==> is_version_text(v@)),
        r matches Some(info) ==> is_described(
            info,
            *raw,
            org_name@,
            repo_name@,
            module_name@,
            bucket,
        ) && info.wf(),
{
    let (version_odoo, version_module) = match &raw.version {
        Some(v) => match OdooVersion::parse(v.as_str(), &bucket) {
            Some(parsed) => (*parsed.get_version_odoo(), parsed.get_version_module().clone()),
            None => {
                return None;
            },
        },
        None => (bucket, "0.1.0".to_owned()),
    };
    let author = join_from(&raw.author, 0, ", ");
    let maintainer = match &raw.maintainer {
        Some(list) => join_from(list, 0, ", "),
        None => author.clone(),
    };
    let mut tools = crate::names::copy_names(&raw.bin);
    let mut i: usize = 0;
    while i < raw.deb.len()
        invariant
            i <= raw.deb.len(),
            texts(tools@) == texts(raw.bin@) + texts(raw.deb@).take(i as int),
        decreases raw.deb.len() - i,
    {
        let ghost before = tools@;
        tools.push(raw.deb[i].clone());
        assert(texts(tools@) =~= texts(before).push(raw.deb@[i as int]@));
        assert(texts(tools@) =~= texts(raw.bin@) + texts(raw.deb@).take(i + 1));
        i += 1;
    }
    proof {
        assert(texts(raw.deb@).take(raw.deb@.len() as int) =~= texts(raw.deb@));
        assert(texts(raw.author@).skip(0) =~= texts(raw.author@));
        if raw.maintainer is Some {
            assert(texts(raw.maintainer->0@).skip(0) =~= texts(raw.maintainer->0@));
        }
    }
    let committers: Vec<(String, u32)> = Vec::new();
    let info = ManifestInfo {
        technical_name: module_name.to_owned(),
        version_odoo,
        name: or_text(&raw.name, ""),
        version_module,
        description: or_text(&raw.description, ""),
        author,
        website: or_text(&raw.website, ""),
        license: or_text(&raw.license, "LGPL-3"),
        category: or_text(&raw.category, "Uncategorized"),
        auto_install: raw.auto_install.or(false),
        application: match raw.application {
            Some(b) => b,
            None => false,
        },
        installable: raw.installable.or(true),
        maintainer,
        git_org: org_name.to_owned(),
        git_repo: repo_name.to_owned(),
        depends: crate::names::copy_names(&raw.depends),
        external_depends_python: without_repeats(&raw.python),
        external_depends_bin: without_repeats(&tools),
        folder_size: 0,
        last_commit_hash: String::new(),
        last_commit_author: String::new(),
        last_commit_date: String::new(),
        last_commit_name: String::new(),
        last_commit_partof: String::new(),
        committers,
    };
    proof {
        assert(counted_names(info.committers@) =~= Seq::<Seq<char>>::empty());
    }
    Some(info)
}

/// Whether a file of that name describes a module.
pub open spec fn is_manifest_name(name: Seq<char>) -> bool {
    name == "__manifest__.py"@ || name == "__openerp__.py"@
}

/// The file that describes the module of a folder, given the names of the
/// files of the folder: the first of them that is a description, or none
/// where the folder is no module.
pub fn manifest_file_of(file_names: &Vec<String>) -> (r: Option<String>)
    ensures
        r matches Some(name) ==> exists|i: int|
            {
                &&& 0 <= i < file_names@.len()
                &&& name@ == (#[trigger] file_names@[i])@
                &&& is_manifest_name(name@)
                &&& forall|k: int| 0 <= k < i ==> !is_manifest_name((#[trigger] file_names@[k])@)
            },
        r is None ==> forall|k: int|
            0 <= k < file_names@.len() ==> !is_manifest_name((#[trigger] file_names@[k])@),
{
    let mut i: usize = 0;
    while i < file_names.len()
        invariant
            i <= file_names.len(),
            forall|k: int| 0 <= k < i ==> !is_manifest_name((#[trigger] file_names@[k])@),
        decreases file_names.len() - i,
    {
        if same_text(file_names[i].as_str(), "__manifest__.py") || same_text(
            file_names[i].as_str(),
            "__openerp__.py",
        ) {
            return Some(file_names[i].clone());
        }
        i += 1;
    }
    None
}

/// The analyzer of one scan: it reads every module for the bucket that is
/// scanned.
#[derive(Debug)]
pub struct OGHCollectorAnalyzer {
    version_odoo: u8,
}

/// Whether `info` is `read` with what the clone says of the folder: its
/// size, its last commit and its committers.
pub open spec fn is_completed(
    info: ManifestInfo,
    read: ManifestInfo,
    folder_size: u64,
    git: GitInfo,
    committers: Seq<(String, u32)>,
) -> bool {
    &&& info.folder_size == folder_size
    &&& info.last_commit_hash == git.last_commit_hash
    &&& info.last_commit_author == git.last_commit_author
    &&& info.last_commit_date == git.last_commit_date
    &&& info.last_commit_name == git.last_commit_name
    &&& info.last_commit_partof == git.last_commit_partof
    &&& info.committers@ == committers
    &&& info == (ManifestInfo {
        folder_size: info.folder_size,
        last_commit_hash: info.last_commit_hash,
        last_commit_author: info.last_commit_author,
        last_commit_date: info.last_commit_date,
        last_commit_name: info.last_commit_name,
        last_commit_partof: info.last_commit_partof,
        committers: info.committers,
        ..read
    })
}

impl OGHCollectorAnalyzer {
    /// The bucket that is scanned.
    pub closed spec fn bucket(self) -> u8 {
        self.version_odoo
    }

    pub fn new(version_odoo: &u8) -> (r: OGHCollectorAnalyzer)
        ensures
            r.bucket() == *version_odoo,
    {
        OGHCollectorAnalyzer { version_odoo: *version_odoo }
    }

    /// What the description `raw` of the module `module_name` in the
    /// repository `repo_name` of `org_name` comes to in this scan; none
    /// where the version text cannot be taken apart.
    pub fn read_manifest(
        &self,
        org_name: &str,
        repo_name: &str,
        module_name: &str,
        raw: &RawManifest,
    ) -> (r: Option<ManifestInfo>)
        ensures
            r is Some <==> (raw.version matches Some(v) ==> is_version_text(v@)),
            r matches Some(info) ==> is_described(
                info,
                *raw,
                org_name@,
                repo_name@,
                module_name@,
                self.bucket(),
            ) && info.wf(),
    {
        self::read_manifest(raw, org_name, repo_name, module_name, self.version_odoo)
    }

    /// The description `read` of a module with what the clone says of its
    /// folder: its size, its last commit and its committers.
    pub fn complete(
        read: ManifestInfo,
        folder_size: u64,
        git: GitInfo,
        committers: Vec<(String, u32)>,
    ) -> (r: ManifestInfo)
        ensures
            is_completed(r, read, folder_size, git, committers@),
    {
        let mut info = read;
        info.folder_size = folder_size;
        info.last_commit_hash = git.last_commit_hash;
        info.last_commit_author = git.last_commit_author;
        info.last_commit_name = git.last_commit_name;
        info.last_commit_date = git.last_commit_date;
        info.last_commit_partof = git.last_commit_partof;
        info.committers = committers;
        info
    }
}

} // verus!
