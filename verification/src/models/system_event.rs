//! The audit log: one row for everything that the catalog gained or lost.
//! Rows are only ever appended. Each row says what happened in fields, and
//! carries the same statement as markup for the log page.

use crate::models::store::Store;
use crate::models::system_event_type;
use crate::text::{chars_of, replace, replace_char};
use vstd::prelude::*;
use vstd::string::*;

verus! {

/// What an event reports.
#[derive(Debug, Clone, Copy, PartialEq, Eq, Structural)]
pub enum EventKind {
    NewOrganization,
    NewRepository,
    NewModule,
    UpdatedModule,
    NewAuthor,
    DeletedAuthor,
    NewMaintainer,
    DeletedMaintainer,
    NewCommitter,
    NewDependency,
    DeletedDependency,
    FinishedTask,
    ProblemModuleVersion,
}

/// The number of the tag that events of the kind `kind` are filed under.
pub open spec fn tag_of(kind: EventKind) -> i64 {
    match kind {
        EventKind::ProblemModuleVersion => 1,
        EventKind::FinishedTask => 2,
        EventKind::NewModule | EventKind::UpdatedModule => 3,
        EventKind::NewMaintainer | EventKind::DeletedMaintainer => 4,
        EventKind::NewCommitter => 5,
        EventKind::NewDependency | EventKind::DeletedDependency => 6,
        EventKind::NewAuthor | EventKind::DeletedAuthor => 7,
        EventKind::NewRepository => 8,
        EventKind::NewOrganization => 9,
    }
}

/// The number of the tag that events of the kind `kind` are filed under.
pub fn tag(kind: EventKind) -> (r: i64)
    ensures
        r == tag_of(kind),
        system_event_type::is_id(r),
{
    match kind {
        EventKind::ProblemModuleVersion => 1,
        EventKind::FinishedTask => 2,
        EventKind::NewModule | EventKind::UpdatedModule => 3,
        EventKind::NewMaintainer | EventKind::DeletedMaintainer => 4,
        EventKind::NewCommitter => 5,
        EventKind::NewDependency | EventKind::DeletedDependency => 6,
        EventKind::NewAuthor | EventKind::DeletedAuthor => 7,
        EventKind::NewRepository => 8,
        EventKind::NewOrganization => 9,
    }
}

/// One event. `subject` is the name that was gained or lost (a dependency, a
/// person, a module, a repository, an organization), `detail` the kind of a
/// dependency, and `module_id` the module concerned, 0 where there is none.
#[derive(Debug)]
pub struct Model {
    pub message: String,
    pub date: String,
    pub event_type_id: (i64, String),
    pub kind: EventKind,
    pub subject: String,
    pub detail: String,
    pub module_id: i64,
}

impl Model {
    /// A copy of the row.
    pub fn duplicate(&self) -> (r: Model)
        ensures
            r == *self,
    {
        Model {
            message: self.message.clone(),
            date: self.date.clone(),
            event_type_id: (self.event_type_id.0, self.event_type_id.1.clone()),
            kind: self.kind,
            subject: self.subject.clone(),
            detail: self.detail.clone(),
            module_id: self.module_id,
        }
    }

    /// What the event says, and the tag that it is filed under.
    pub open spec fn signature(&self) -> Signature {
        Signature {
            kind: self.kind,
            subject: self.subject@,
            detail: self.detail@,
            module_id: self.module_id,
            event_type_id: (self.event_type_id.0, self.event_type_id.1@),
        }
    }

    /// Whether the event carries the date `now`.
    pub open spec fn is_dated(&self, now: Seq<char>) -> bool {
        self.date@ == now
    }

    /// Whether the event is of the kind `kind`, about `subject` and `detail`,
    /// for the module `module_id`.
    pub open spec fn reports(
        &self,
        kind: EventKind,
        subject: Seq<char>,
        detail: Seq<char>,
        module_id: i64,
    ) -> bool {
        &&& self.kind == kind
        &&& self.subject@ == subject
        &&& self.detail@ == detail
        &&& self.module_id == module_id
        &&& self.event_type_id.0 == tag_of(kind)
        &&& self.event_type_id.1@ == system_event_type::name_of(tag_of(kind))
    }
}

/// What an event says and the tag that it is filed under, without its
/// wording and its date.
pub struct Signature {
    pub kind: EventKind,
    pub subject: Seq<char>,
    pub detail: Seq<char>,
    pub module_id: i64,
    pub event_type_id: (i64, Seq<char>),
}

/// The tag that events of the kind `kind` are filed under: its number and
/// its name.
pub open spec fn filed_under(kind: EventKind) -> (i64, Seq<char>) {
    (tag_of(kind), system_event_type::name_of(tag_of(kind)))
}

/// What each of `rows` says, in order.
pub open spec fn signatures(rows: Seq<Model>) -> Seq<Signature> {
    Seq::new(rows.len(), |i: int| rows[i].signature())
}

/// One event of the kind `kind` for each of `names`, in order, each filed
/// under the tag of the kind.
pub open spec fn one_each(
    kind: EventKind,
    names: Seq<Seq<char>>,
    detail: Seq<char>,
    module_id: i64,
) -> Seq<Signature> {
    Seq::new(
        names.len(),
        |i: int|
            Signature {
                kind,
                subject: names[i],
                detail,
                module_id,
                event_type_id: filed_under(kind),
            },
    )
}

/// How many of `said` are of the kind `kind`.
pub open spec fn count_of(said: Seq<Signature>, kind: EventKind) -> nat
    decreases said.len(),
{
    if said.len() == 0 {
        0
    } else {
        count_of(said.drop_last(), kind) + if said.last().kind == kind {
            1nat
        } else {
            0nat
        }
    }
}

/// The events of two stretches are counted one stretch after the other.
pub proof fn lemma_count_of_both(a: Seq<Signature>, b: Seq<Signature>, kind: EventKind)
    ensures
        count_of(a + b, kind) == count_of(a, kind) + count_of(b, kind),
    decreases b.len(),
{
    if b.len() == 0 {
        assert(a + b =~= a);
    } else {
        assert((a + b).drop_last() =~= a + b.drop_last());
        assert((a + b).last() == b.last());
        lemma_count_of_both(a, b.drop_last(), kind);
    }
}

/// One event each for some names are as many events of their kind as there
/// are names, and none of another kind.
pub proof fn lemma_count_of_one_each(
    of: EventKind,
    names: Seq<Seq<char>>,
    detail: Seq<char>,
    module_id: i64,
    kind: EventKind,
)
    ensures
        count_of(one_each(of, names, detail, module_id), kind) == if of == kind {
            names.len()
        } else {
            0
        },
    decreases names.len(),
{
    let all = one_each(of, names, detail, module_id);
    if names.len() > 0 {
        assert(all.drop_last() =~= one_each(of, names.drop_last(), detail, module_id));
        lemma_count_of_one_each(of, names.drop_last(), detail, module_id, kind);
    }
}

/// `later` holds the rows of `earlier`, in place, and maybe more behind them.
pub open spec fn extends(later: Seq<Model>, earlier: Seq<Model>) -> bool {
    earlier.len() <= later.len() && later.take(earlier.len() as int) == earlier
}

/// Whether each row of `later` behind those of `earlier` carries the date
/// `now`.
pub open spec fn dated(later: Seq<Model>, earlier: Seq<Model>, now: Seq<char>) -> bool {
    forall|i: int| earlier.len() <= i < later.len() ==> (#[trigger] later[i]).is_dated(now)
}

/// The rows of `later` behind those of `earlier`.
pub open spec fn appended(later: Seq<Model>, earlier: Seq<Model>) -> Seq<Model> {
    later.skip(earlier.len() as int)
}

/// What was said between `earlier` and `later`.
pub open spec fn said(later: Seq<Model>, earlier: Seq<Model>) -> Seq<Signature> {
    signatures(appended(later, earlier))
}

/// What was said between `a` and `c` is what was said between `a` and `b`,
/// then what was said between `b` and `c`.
pub proof fn lemma_said_in_turn(a: Seq<Model>, b: Seq<Model>, c: Seq<Model>)
    requires
        extends(b, a),
        extends(c, b),
    ensures
        extends(c, a),
        said(c, a) == said(b, a) + said(c, b),
        forall|now: Seq<char>| dated(b, a, now) && dated(c, b, now) ==> #[trigger] dated(c, a, now),
{
    assert forall|now: Seq<char>| dated(b, a, now) && dated(c, b, now) implies #[trigger] dated(
        c,
        a,
        now,
    ) by {
        assert forall|i: int| a.len() <= i < c.len() implies (#[trigger] c[i]).is_dated(now) by {
            if i < b.len() {
                assert(c[i] == c.take(b.len() as int)[i]);
                assert(b[i].is_dated(now));
            }
        }
    }
    assert(c.take(a.len() as int) =~= b.take(a.len() as int));
    assert(said(c, a) =~= said(b, a) + said(c, b)) by {
        assert forall|i: int| 0 <= i < said(c, a).len() implies said(c, a)[i] == (said(b, a)
            + said(c, b))[i] by {
            if i < b.len() - a.len() {
                assert(c[a.len() + i] == c.take(b.len() as int)[a.len() + i]);
            }
        }
    }
}

/// After one more row, what was said is one more signature.
pub proof fn lemma_said_after_push(a: Seq<Model>, b: Seq<Model>, e: Model)
    requires
        extends(b, a),
    ensures
        extends(b.push(e), a),
        said(b.push(e), a) == said(b, a).push(e.signature()),
        forall|now: Seq<char>|
            dated(b, a, now) && e.is_dated(now) ==> #[trigger] dated(b.push(e), a, now),
{
    assert forall|now: Seq<char>| dated(b, a, now) && e.is_dated(now) implies #[trigger] dated(
        b.push(e),
        a,
        now,
    ) by {
        assert forall|i: int| a.len() <= i < b.push(e).len() implies (#[trigger] b.push(
            e,
        )[i]).is_dated(now) by {
            if i < b.len() {
                assert(b.push(e)[i] == b[i]);
            }
        }
    }
    assert(b.push(e).take(a.len() as int) =~= b.take(a.len() as int));
    assert(said(b.push(e), a) =~= said(b, a).push(e.signature()));
}

/// Nothing was said where nothing was appended.
pub proof fn lemma_said_nothing(a: Seq<Model>)
    ensures
        extends(a, a),
        said(a, a) == Seq::<Signature>::empty(),
        forall|now: Seq<char>| #[trigger] dated(a, a, now),
{
    assert(a.take(a.len() as int) =~= a);
    assert(said(a, a) =~= Seq::<Signature>::empty());
}

/// Appends an event.
pub fn add(
    store: &mut Store,
    kind: EventKind,
    subject: &str,
    detail: &str,
    module_id: i64,
    message: String,
    now: &str,
) -> (r: Model)
    ensures
        r.reports(kind, subject@, detail@, module_id),
        r.message@ == message@,
        r.date@ == now@,
        final(store).system_events@ == old(store).system_events@.push(r),
        *final(store) == (Store { system_events: final(store).system_events, ..*old(store) }),
{
    let tag_id = tag(kind);
    let tag_name = match system_event_type::get_by_id(&tag_id) {
        Some(t) => t.name,
        None => String::new(),
    };
    let row = Model {
        message,
        date: now.to_owned(),
        event_type_id: (tag_id, tag_name),
        kind,
        subject: subject.to_owned(),
        detail: detail.to_owned(),
        module_id,
    };
    let r = row.duplicate();
    store.system_events.push(row);
    r
}

/// `text` in a span of the class `class`.
pub open spec fn span(class: Seq<char>, text: Seq<char>) -> Seq<char> {
    "<span class='"@ + class + "'>"@ + text + "</span>"@
}

fn append_span(m: &mut String, class: &str, text: &str)
    ensures
        final(m)@ == old(m)@ + span(class@, text@),
{
    m.append("<span class='");
    m.append(class);
    m.append("'>");
    m.append(text);
    m.append("</span>");
    assert(final(m)@ =~= old(m)@ + span(class@, text@));
}

/// How a module is named in a message: its technical name, its display name
/// and its bucket.
pub open spec fn module_label(
    technical_name: Seq<char>,
    name: Seq<char>,
    version_odoo: Seq<char>,
) -> Seq<char> {
    "'"@ + span("module_tech_name"@, technical_name) + "' ("@ + span("module_name"@, name)
        + ") ["@ + span("module_odoo_version"@, version_odoo) + "]"@
}

fn append_module_label(m: &mut String, technical_name: &str, name: &str, version_odoo: &str)
    ensures
        final(m)@ == old(m)@ + module_label(technical_name@, name@, version_odoo@),
{
    m.append("'");
    append_span(m, "module_tech_name", technical_name);
    m.append("' (");
    append_span(m, "module_name", name);
    m.append(") [");
    append_span(m, "module_odoo_version", version_odoo);
    m.append("]");
    assert(final(m)@ =~= old(m)@ + module_label(technical_name@, name@, version_odoo@));
}

/// The message for something new on a module: "New `what` '`who`' added for
/// `module`".
pub open spec fn gained_message(
    what: Seq<char>,
    class: Seq<char>,
    who: Seq<char>,
    technical_name: Seq<char>,
    name: Seq<char>,
    version_odoo: Seq<char>,
) -> Seq<char> {
    "New "@ + what + " '"@ + span(class, who) + "' added for "@ + module_label(
        technical_name,
        name,
        version_odoo,
    )
}

fn gained(
    what: &str,
    class: &str,
    who: &str,
    technical_name: &str,
    name: &str,
    version_odoo: &str,
) -> (m: String)
    ensures
        m@ == gained_message(what@, class@, who@, technical_name@, name@, version_odoo@),
{
    let mut m = String::new();
    m.append("New ");
    m.append(what);
    m.append(" '");
    append_span(&mut m, class, who);
    m.append("' added for ");
    append_module_label(&mut m, technical_name, name, version_odoo);
    assert(m@ =~= gained_message(what@, class@, who@, technical_name@, name@, version_odoo@));
    m
}

/// The message for something that a module lost: "'`who`' has been removed
/// as `role` the module `module`".
pub open spec fn lost_message(
    class: Seq<char>,
    who: Seq<char>,
    role: Seq<char>,
    technical_name: Seq<char>,
    name: Seq<char>,
    version_odoo: Seq<char>,
) -> Seq<char> {
    "'"@ + span(class, who) + "' has been removed as "@ + role + " the module "@ + module_label(
        technical_name,
        name,
        version_odoo,
    )
}

fn lost(
    class: &str,
    who: &str,
    role: &str,
    technical_name: &str,
    name: &str,
    version_odoo: &str,
) -> (m: String)
    ensures
        m@ == lost_message(class@, who@, role@, technical_name@, name@, version_odoo@),
{
    let mut m = String::new();
    m.append("'");
    append_span(&mut m, class, who);
    m.append("' has been removed as ");
    m.append(role);
    m.append(" the module ");
    append_module_label(&mut m, technical_name, name, version_odoo);
    assert(m@ =~= lost_message(class@, who@, role@, technical_name@, name@, version_odoo@));
    m
}


/// Whether `after` is `before` with the event `r` appended.
pub open spec fn logged(before: Store, after: Store, r: Model) -> bool {
    &&& after.system_events@ == before.system_events@.push(r)
    &&& after == (Store { system_events: after.system_events, ..before })
}

pub fn register_new_dependency_module(
    store: &mut Store,
    dep_name: &str,
    dep_kind: &str,
    module_id: i64,
    module_technical_name: &str,
    module_name: &str,
    module_version_odoo: &str,
    now: &str,
) -> (r: Model)
    ensures
        logged(*old(store), *final(store), r),
        r.reports(EventKind::NewDependency, dep_name@, dep_kind@, module_id),
        r.date@ == now@,
        r.message@ == gained_message(
            "dependency"@,
            "dep_name"@,
            dep_name@,
            module_technical_name@,
            module_name@,
            module_version_odoo@,
        ),
{
    let msg = gained(
        "dependency",
        "dep_name",
        dep_name,
        module_technical_name,
        module_name,
        module_version_odoo,
    );
    self::add(store, EventKind::NewDependency, dep_name, dep_kind, module_id, msg, now)
}

/// The message for a new organization.
pub open spec fn new_organization_message(org_name: Seq<char>) -> Seq<char> {
    "New organization '"@ + span("org_name"@, org_name) + "' added"@
}

pub fn register_new_gh_organization(store: &mut Store, org_name: &str, now: &str) -> (r: Model)
    ensures
        logged(*old(store), *final(store), r),
        r.reports(EventKind::NewOrganization, org_name@, ""@, 0),
        r.date@ == now@,
        r.message@ == new_organization_message(org_name@),
{
    let mut msg = String::new();
    msg.append("New organization '");
    append_span(&mut msg, "org_name", org_name);
    msg.append("' added");
    assert(msg@ =~= new_organization_message(org_name@));
    self::add(store, EventKind::NewOrganization, org_name, "", 0, msg, now)
}

/// How a repository is named in a message: its organization, a stroke, its
/// name.
pub open spec fn repository_label(org_name: Seq<char>, repo_name: Seq<char>) -> Seq<char> {
    "'"@ + span("org_name"@, org_name) + "/"@ + span("repo_name"@, repo_name) + "'"@
}

fn append_repository_label(m: &mut String, org_name: &str, repo_name: &str)
    ensures
        final(m)@ == old(m)@ + repository_label(org_name@, repo_name@),
{
    m.append("'");
    append_span(m, "org_name", org_name);
    m.append("/");
    append_span(m, "repo_name", repo_name);
    m.append("'");
    assert(final(m)@ =~= old(m)@ + repository_label(org_name@, repo_name@));
}

/// The message for a new repository.
pub open spec fn new_repository_message(org_name: Seq<char>, repo_name: Seq<char>) -> Seq<char> {
    "New repository "@ + repository_label(org_name, repo_name) + " added"@
}

pub fn register_new_gh_repository(
    store: &mut Store,
    org_name: &str,
    repo_name: &str,
    now: &str,
) -> (r: Model)
    ensures
        logged(*old(store), *final(store), r),
        r.reports(EventKind::NewRepository, repo_name@, org_name@, 0),
        r.date@ == now@,
        r.message@ == new_repository_message(org_name@, repo_name@),
{
    let mut msg = String::new();
    msg.append("New repository ");
    append_repository_label(&mut msg, org_name, repo_name);
    msg.append(" added");
    assert(msg@ =~= new_repository_message(org_name@, repo_name@));
    self::add(store, EventKind::NewRepository, repo_name, org_name, 0, msg, now)
}

pub fn register_new_module_author(
    store: &mut Store,
    author_name: &str,
    module_id: i64,
    module_technical_name: &str,
    module_name: &str,
    module_version_odoo: &str,
    now: &str,
) -> (r: Model)
    ensures
        logged(*old(store), *final(store), r),
        r.reports(EventKind::NewAuthor, author_name@, ""@, module_id),
        r.date@ == now@,
        r.message@ == gained_message(
            "author"@,
            "author_name"@,
            author_name@,
            module_technical_name@,
            module_name@,
            module_version_odoo@,
        ),
{
    let msg = gained(
        "author",
        "author_name",
        author_name,
        module_technical_name,
        module_name,
        module_version_odoo,
    );
    self::add(store, EventKind::NewAuthor, author_name, "", module_id, msg, now)
}

pub fn register_new_module_maintainer(
    store: &mut Store,
    maintainer_name: &str,
    module_id: i64,
    module_technical_name: &str,
    module_name: &str,
    module_version_odoo: &str,
    now: &str,
) -> (r: Model)
    ensures
        logged(*old(store), *final(store), r),
        r.reports(EventKind::NewMaintainer, maintainer_name@, ""@, module_id),
        r.date@ == now@,
        r.message@ == gained_message(
            "maintainer"@,
            "maintainer_name"@,
            maintainer_name@,
            module_technical_name@,
            module_name@,
            module_version_odoo@,
        ),
{
    let msg = gained(
        "maintainer",
        "maintainer_name",
        maintainer_name,
        module_technical_name,
        module_name,
        module_version_odoo,
    );
    self::add(store, EventKind::NewMaintainer, maintainer_name, "", module_id, msg, now)
}

pub fn register_new_module_committer(
    store: &mut Store,
    committer_name: &str,
    module_id: i64,
    module_technical_name: &str,
    module_name: &str,
    module_version_odoo: &str,
    now: &str,
) -> (r: Model)
    ensures
        logged(*old(store), *final(store), r),
        r.reports(EventKind::NewCommitter, committer_name@, ""@, module_id),
        r.date@ == now@,
        r.message@ == gained_message(
            "committer"@,
            "committer_name"@,
            committer_name@,
            module_technical_name@,
            module_name@,
            module_version_odoo@,
        ),
{
    let msg = gained(
        "committer",
        "committer_name",
        committer_name,
        module_technical_name,
        module_name,
        module_version_odoo,
    );
    self::add(store, EventKind::NewCommitter, committer_name, "", module_id, msg, now)
}

/// How a module is named where it is entered or brought up to date: its
/// technical name, its display name, its own version, its repository and its
/// bucket, with `verb` between version and repository.
pub open spec fn module_headline(
    technical_name: Seq<char>,
    name: Seq<char>,
    version: Seq<char>,
    verb: Seq<char>,
    org_name: Seq<char>,
    repo_name: Seq<char>,
    version_odoo: Seq<char>,
) -> Seq<char> {
    "'"@ + span("module_tech_name"@, technical_name) + "' ("@ + span("module_name"@, name)
        + ") ["@ + span("module_version"@, version) + "] "@ + verb + " "@ + repository_label(
        org_name,
        repo_name,
    ) + " ["@ + span("module_odoo_version"@, version_odoo) + "]"@
}

fn append_module_headline(
    m: &mut String,
    technical_name: &str,
    name: &str,
    version: &str,
    verb: &str,
    org_name: &str,
    repo_name: &str,
    version_odoo: &str,
)
    ensures
        final(m)@ == old(m)@ + module_headline(
            technical_name@,
            name@,
            version@,
            verb@,
            org_name@,
            repo_name@,
            version_odoo@,
        ),
{
    m.append("'");
    append_span(m, "module_tech_name", technical_name);
    m.append("' (");
    append_span(m, "module_name", name);
    m.append(") [");
    append_span(m, "module_version", version);
    m.append("] ");
    m.append(verb);
    m.append(" ");
    append_repository_label(m, org_name, repo_name);
    m.append(" [");
    append_span(m, "module_odoo_version", version_odoo);
    m.append("]");
    assert(final(m)@ =~= old(m)@ + module_headline(
        technical_name@,
        name@,
        version@,
        verb@,
        org_name@,
        repo_name@,
        version_odoo@,
    ));
}

/// The message for a new module.
pub open spec fn new_module_message(
    technical_name: Seq<char>,
    name: Seq<char>,
    version: Seq<char>,
    org_name: Seq<char>,
    repo_name: Seq<char>,
    version_odoo: Seq<char>,
) -> Seq<char> {
    "New module "@ + module_headline(
        technical_name,
        name,
        version,
        "added in"@,
        org_name,
        repo_name,
        version_odoo,
    )
}

pub fn register_new_module(
    store: &mut Store,
    module_id: i64,
    module_technical_name: &str,
    module_name: &str,
    module_version: &str,
    org_name: &str,
    repo_name: &str,
    module_version_odoo: &str,
    now: &str,
) -> (r: Model)
    ensures
        logged(*old(store), *final(store), r),
        r.reports(EventKind::NewModule, module_technical_name@, ""@, module_id),
        r.date@ == now@,
        r.message@ == new_module_message(
            module_technical_name@,
            module_name@,
            module_version@,
            org_name@,
            repo_name@,
            module_version_odoo@,
        ),
{
    let mut msg = String::new();
    msg.append("New module ");
    append_module_headline(
        &mut msg,
        module_technical_name,
        module_name,
        module_version,
        "added in",
        org_name,
        repo_name,
        module_version_odoo,
    );
    assert(msg@ =~= new_module_message(
        module_technical_name@,
        module_name@,
        module_version@,
        org_name@,
        repo_name@,
        module_version_odoo@,
    ));
    self::add(store, EventKind::NewModule, module_technical_name, "", module_id, msg, now)
}

pub fn register_delete_module_author(
    store: &mut Store,
    author_name: &str,
    module_id: i64,
    module_technical_name: &str,
    module_name: &str,
    module_version_odoo: &str,
    now: &str,
) -> (r: Model)
    ensures
        logged(*old(store), *final(store), r),
        r.reports(EventKind::DeletedAuthor, author_name@, ""@, module_id),
        r.date@ == now@,
        r.message@ == lost_message(
            "author_name"@,
            author_name@,
            "author of"@,
            module_technical_name@,
            module_name@,
            module_version_odoo@,
        ),
{
    let msg = lost(
        "author_name",
        author_name,
        "author of",
        module_technical_name,
        module_name,
        module_version_odoo,
    );
    self::add(store, EventKind::DeletedAuthor, author_name, "", module_id, msg, now)
}

/// The part of a dependency that a module is said to have lost: the kind of
/// the dependency, then "dependency of".
pub open spec fn dependency_role(dep_kind: Seq<char>) -> Seq<char> {
    dep_kind + " dependency of"@
}

pub fn register_delete_module_dependency(
    store: &mut Store,
    dep_name: &str,
    dep_kind: &str,
    module_id: i64,
    module_technical_name: &str,
    module_name: &str,
    module_version_odoo: &str,
    now: &str,
) -> (r: Model)
    ensures
        logged(*old(store), *final(store), r),
        r.reports(EventKind::DeletedDependency, dep_name@, dep_kind@, module_id),
        r.date@ == now@,
        r.message@ == lost_message(
            "dep_name"@,
            dep_name@,
            dependency_role(dep_kind@),
            module_technical_name@,
            module_name@,
            module_version_odoo@,
        ),
{
    let mut role = String::new();
    role.append(dep_kind);
    role.append(" dependency of");
    assert(role@ =~= dependency_role(dep_kind@));
    let msg = lost(
        "dep_name",
        dep_name,
        role.as_str(),
        module_technical_name,
        module_name,
        module_version_odoo,
    );
    self::add(store, EventKind::DeletedDependency, dep_name, dep_kind, module_id, msg, now)
}

pub fn register_delete_module_maintainer(
    store: &mut Store,
    maintainer_name: &str,
    module_id: i64,
    module_technical_name: &str,
    module_name: &str,
    module_version_odoo: &str,
    now: &str,
) -> (r: Model)
    ensures
        logged(*old(store), *final(store), r),
        r.reports(EventKind::DeletedMaintainer, maintainer_name@, ""@, module_id),
        r.date@ == now@,
        r.message@ == lost_message(
            "maintainer_name"@,
            maintainer_name@,
            "maintainer of"@,
            module_technical_name@,
            module_name@,
            module_version_odoo@,
        ),
{
    let msg = lost(
        "maintainer_name",
        maintainer_name,
        "maintainer of",
        module_technical_name,
        module_name,
        module_version_odoo,
    );
    self::add(store, EventKind::DeletedMaintainer, maintainer_name, "", module_id, msg, now)
}

/// The message for a finished scan.
pub open spec fn finished_task_message(
    scan_seconds: Seq<char>,
    number_modules: Seq<char>,
    org_name: Seq<char>,
    odoo_version: Seq<char>,
) -> Seq<char> {
    "Scan finished in "@ + scan_seconds + " seconds: "@ + span("number_modules"@, number_modules)
        + " modules collected in '"@ + span("org_name"@, org_name) + "' ["@ + span(
        "odoo_version"@,
        odoo_version,
    ) + "]"@
}

pub fn register_finished_task_collector(
    store: &mut Store,
    scan_seconds: &str,
    number_modules: &str,
    org_name: &str,
    odoo_version: &str,
    now: &str,
) -> (r: Model)
    ensures
        logged(*old(store), *final(store), r),
        r.reports(EventKind::FinishedTask, org_name@, ""@, 0),
        r.date@ == now@,
        r.message@ == finished_task_message(
            scan_seconds@,
            number_modules@,
            org_name@,
            odoo_version@,
        ),
{
    let mut msg = String::new();
    msg.append("Scan finished in ");
    msg.append(scan_seconds);
    msg.append(" seconds: ");
    append_span(&mut msg, "number_modules", number_modules);
    msg.append(" modules collected in '");
    append_span(&mut msg, "org_name", org_name);
    msg.append("' [");
    append_span(&mut msg, "odoo_version", odoo_version);
    msg.append("]");
    assert(msg@ =~= finished_task_message(
        scan_seconds@,
        number_modules@,
        org_name@,
        odoo_version@,
    ));
    self::add(store, EventKind::FinishedTask, org_name, "", 0, msg, now)
}

/// The message for a module whose version text names another bucket than the
/// one it was found in.
pub open spec fn problem_module_version_message(
    technical_name: Seq<char>,
    name: Seq<char>,
    repo_name: Seq<char>,
    manifest_version_odoo: Seq<char>,
    version_odoo: Seq<char>,
) -> Seq<char> {
    "<span class='problem'>PROBLEM DETECTED: '"@ + span("module_tech_name"@, technical_name)
        + "' ("@ + span("module_name"@, name) + ") from "@ + span("module_repo"@, repo_name)
        + " has an incorrect Odoo version: "@ + span("value_wrong"@, manifest_version_odoo)
        + " should be "@ + span("value_good"@, version_odoo) + "</span>"@
}

pub fn register_problem_module_version(
    store: &mut Store,
    module_id: i64,
    module_technical_name: &str,
    module_name: &str,
    repo_name: &str,
    manifest_version_odoo: &str,
    version_odoo: &str,
    now: &str,
) -> (r: Model)
    ensures
        logged(*old(store), *final(store), r),
        r.reports(
            EventKind::ProblemModuleVersion,
            module_technical_name@,
            manifest_version_odoo@,
            module_id,
        ),
        r.date@ == now@,
        r.message@ == problem_module_version_message(
            module_technical_name@,
            module_name@,
            repo_name@,
            manifest_version_odoo@,
            version_odoo@,
        ),
{
    let mut msg = String::new();
    msg.append("<span class='problem'>PROBLEM DETECTED: '");
    append_span(&mut msg, "module_tech_name", module_technical_name);
    msg.append("' (");
    append_span(&mut msg, "module_name", module_name);
    msg.append(") from ");
    append_span(&mut msg, "module_repo", repo_name);
    msg.append(" has an incorrect Odoo version: ");
    append_span(&mut msg, "value_wrong", manifest_version_odoo);
    msg.append(" should be ");
    append_span(&mut msg, "value_good", version_odoo);
    msg.append("</span>");
    assert(msg@ =~= problem_module_version_message(
        module_technical_name@,
        module_name@,
        repo_name@,
        manifest_version_odoo@,
        version_odoo@,
    ));
    self::add(
        store,
        EventKind::ProblemModuleVersion,
        module_technical_name,
        manifest_version_odoo,
        module_id,
        msg,
        now,
    )
}


/// What the message for a module brought up to date is made of. Each change
/// is the label of a field, its old value and its new one; the commit is the
/// one that the catalog held before.
pub struct LogUpdateModuleInfo<'a> {
    pub module_technical_name: &'a str,
    pub module_name: &'a str,
    pub module_version: &'a str,
    pub org_name: &'a str,
    pub repo_name: &'a str,
    pub module_version_odoo: &'a str,
    pub module_changes: &'a Vec<(String, String, String)>,
    pub last_commit_hash: &'a str,
    pub last_commit_author: &'a str,
    pub last_commit_date: &'a str,
    pub last_commit_name: &'a str,
    pub last_commit_partof: &'a str,
}

/// The changes of `v` as texts.
pub open spec fn changes_of(v: Seq<(String, String, String)>) -> Seq<
    (Seq<char>, Seq<char>, Seq<char>),
> {
    Seq::new(v.len(), |i: int| (v[i].0@, v[i].1@, v[i].2@))
}

/// One change as a list item.
pub open spec fn change_item(change: (Seq<char>, Seq<char>, Seq<char>)) -> Seq<char> {
    "<li>"@ + change.0 + ": "@ + span("value_old"@, change.1) + " -> "@ + span(
        "value_new"@,
        change.2,
    ) + "</li>"@
}

/// The changes as list items, one after another.
pub open spec fn change_items(changes: Seq<(Seq<char>, Seq<char>, Seq<char>)>) -> Seq<char>
    decreases changes.len(),
{
    if changes.len() == 0 {
        Seq::<char>::empty()
    } else {
        change_items(changes.drop_last()) + change_item(changes.last())
    }
}

/// The link to the pull request that a commit was part of; nothing where it
/// was part of none.
pub open spec fn pull_request_link(partof: Seq<char>) -> Seq<char> {
    if partof.len() == 0 {
        Seq::<char>::empty()
    } else {
        " - PR: <a class='git_pr' href='https://github.com/"@ + replace_char(
            partof,
            '#',
            "/pull/"@,
        ) + "'>"@ + partof + "</a>"@
    }
}

/// The link to a commit, shown as the commit's subject.
pub open spec fn commit_link(
    org_name: Seq<char>,
    repo_name: Seq<char>,
    hash: Seq<char>,
    subject: Seq<char>,
) -> Seq<char> {
    "<a class='git_commit' href='https://github.com/"@ + org_name + "/"@ + repo_name
        + "/commit/"@ + hash + "'>"@ + subject + "</a>"@
}

/// The commit under a message: a link to it, its author, its date, and the
/// pull request where it had one.
pub open spec fn commit_footer(
    org_name: Seq<char>,
    repo_name: Seq<char>,
    hash: Seq<char>,
    subject: Seq<char>,
    author: Seq<char>,
    date: Seq<char>,
    partof: Seq<char>,
) -> Seq<char> {
    "<div class='commit_info'>"@ + commit_link(org_name, repo_name, hash, subject) + " - "@ + span(
        "git_author"@,
        author,
    ) + " - "@ + span("git_date"@, date) + pull_request_link(partof) + "</div>"@
}

/// The message for a module brought up to date.
pub open spec fn update_module_message(
    technical_name: Seq<char>,
    name: Seq<char>,
    version: Seq<char>,
    org_name: Seq<char>,
    repo_name: Seq<char>,
    version_odoo: Seq<char>,
    changes: Seq<(Seq<char>, Seq<char>, Seq<char>)>,
    hash: Seq<char>,
    subject: Seq<char>,
    author: Seq<char>,
    date: Seq<char>,
    partof: Seq<char>,
) -> Seq<char> {
    "Module "@ + module_headline(
        technical_name,
        name,
        version,
        "in"@,
        org_name,
        repo_name,
        version_odoo,
    ) + " updated:<ul class='module_changes'>"@ + change_items(changes) + "</ul>"@
        + commit_footer(org_name, repo_name, hash, subject, author, date, partof)
}

fn append_change_items(m: &mut String, changes: &Vec<(String, String, String)>)
    ensures
        final(m)@ == old(m)@ + change_items(changes_of(changes@)),
{
    let ghost all = changes_of(changes@);
    let mut i: usize = 0;
    proof {
        assert(all.take(0) =~= Seq::<(Seq<char>, Seq<char>, Seq<char>)>::empty());
        assert(m@ =~= old(m)@ + change_items(all.take(0)));
    }
    while i < changes.len()
        invariant
            i <= changes.len(),
            all == changes_of(changes@),
            m@ == old(m)@ + change_items(all.take(i as int)),
        decreases changes.len() - i,
    {
        proof {
            assert(all.take(i + 1).drop_last() =~= all.take(i as int));
            assert(all.take(i + 1).last() == all[i as int]);
        }
        let ghost before = m@;
        m.append("<li>");
        m.append(changes[i].0.as_str());
        m.append(": ");
        append_span(m, "value_old", changes[i].1.as_str());
        m.append(" -> ");
        append_span(m, "value_new", changes[i].2.as_str());
        m.append("</li>");
        proof {
            assert(m@ =~= before + change_item(all[i as int]));
            assert(m@ =~= old(m)@ + change_items(all.take(i + 1)));
        }
        i += 1;
    }
    proof {
        assert(all.take(changes.len() as int) =~= all);
    }
}

fn append_commit_link(m: &mut String, org_name: &str, repo_name: &str, hash: &str, subject: &str)
    ensures
        final(m)@ == old(m)@ + commit_link(org_name@, repo_name@, hash@, subject@),
{
    m.append("<a class='git_commit' href='https://github.com/");
    m.append(org_name);
    m.append("/");
    m.append(repo_name);
    m.append("/commit/");
    m.append(hash);
    m.append("'>");
    m.append(subject);
    m.append("</a>");
    assert(final(m)@ =~= old(m)@ + commit_link(org_name@, repo_name@, hash@, subject@));
}

fn append_pull_request_link(m: &mut String, partof: &str)
    ensures
        final(m)@ == old(m)@ + pull_request_link(partof@),
{
    if !partof.is_empty() {
        let path = replace(partof, '#', "/pull/");
        m.append(" - PR: <a class='git_pr' href='https://github.com/");
        m.append(path.as_str());
        m.append("'>");
        m.append(partof);
        m.append("</a>");
    }
    assert(final(m)@ =~= old(m)@ + pull_request_link(partof@));
}

fn append_commit_footer(
    m: &mut String,
    org_name: &str,
    repo_name: &str,
    hash: &str,
    subject: &str,
    author: &str,
    date: &str,
    partof: &str,
)
    ensures
        final(m)@ == old(m)@ + commit_footer(
            org_name@,
            repo_name@,
            hash@,
            subject@,
            author@,
            date@,
            partof@,
        ),
{
    m.append("<div class='commit_info'>");
    append_commit_link(m, org_name, repo_name, hash, subject);
    m.append(" - ");
    append_span(m, "git_author", author);
    m.append(" - ");
    append_span(m, "git_date", date);
    append_pull_request_link(m, partof);
    m.append("</div>");
    assert(final(m)@ =~= old(m)@ + commit_footer(
        org_name@,
        repo_name@,
        hash@,
        subject@,
        author@,
        date@,
        partof@,
    ));
}

/// The message that `info` asks for.
pub open spec fn update_message_of(info: LogUpdateModuleInfo) -> Seq<char> {
    update_module_message(
        info.module_technical_name@,
        info.module_name@,
        info.module_version@,
        info.org_name@,
        info.repo_name@,
        info.module_version_odoo@,
        changes_of(info.module_changes@),
        info.last_commit_hash@,
        info.last_commit_name@,
        info.last_commit_author@,
        info.last_commit_date@,
        info.last_commit_partof@,
    )
}

pub fn register_update_module(
    store: &mut Store,
    module_id: i64,
    module_info: &LogUpdateModuleInfo,
    now: &str,
) -> (r: Model)
    ensures
        logged(*old(store), *final(store), r),
        r.reports(EventKind::UpdatedModule, module_info.module_technical_name@, ""@, module_id),
        r.date@ == now@,
        r.message@ == update_message_of(*module_info),
{
    let mut msg = String::new();
    msg.append("Module ");
    append_module_headline(
        &mut msg,
        module_info.module_technical_name,
        module_info.module_name,
        module_info.module_version,
        "in",
        module_info.org_name,
        module_info.repo_name,
        module_info.module_version_odoo,
    );
    msg.append(" updated:<ul class='module_changes'>");
    append_change_items(&mut msg, module_info.module_changes);
    msg.append("</ul>");
    append_commit_footer(
        &mut msg,
        module_info.org_name,
        module_info.repo_name,
        module_info.last_commit_hash,
        module_info.last_commit_name,
        module_info.last_commit_author,
        module_info.last_commit_date,
        module_info.last_commit_partof,
    );
    assert(msg@ =~= update_message_of(*module_info));
    self::add(
        store,
        EventKind::UpdatedModule,
        module_info.module_technical_name,
        "",
        module_id,
        msg,
        now,
    )
}

/// The month of the date `date`: its first seven characters, the year and
/// the month as the catalog writes dates; the whole of a shorter text.
pub open spec fn month_text(date: Seq<char>) -> Seq<char> {
    if date.len() <= 7 {
        date
    } else {
        date.subrange(0, 7)
    }
}

/// The month of the date `date`.
pub fn month_of(date: &str) -> (r: String)
    ensures
        r@ == month_text(date@),
{
    let c = chars_of(date);
    if c.len() <= 7 {
        date.to_owned()
    } else {
        date.substring_char(0, 7).to_owned()
    }
}

/// Whether `s` starts with `start`.
pub open spec fn starts_with(s: Seq<char>, start: Seq<char>) -> bool {
    start.len() <= s.len() && s.subrange(0, start.len() as int) == start
}

fn has_start(s: &str, start: &str) -> (r: bool)
    ensures
        r == starts_with(s@, start@),
{
    let a = chars_of(s);
    let b = chars_of(start);
    if b.len() > a.len() {
        return false;
    }
    let mut i: usize = 0;
    while i < b.len()
        invariant
            i <= b.len(),
            b.len() <= a.len(),
            a@ == s@,
            b@ == start@,
            forall|k: int| 0 <= k < i ==> a@[k] == b@[k],
        decreases b.len() - i,
    {
        if a[i] != b[i] {
            assert(s@.subrange(0, start@.len() as int)[i as int] != start@[i as int]);
            return false;
        }
        i += 1;
    }
    assert(s@.subrange(0, start@.len() as int) =~= start@);
    true
}

/// The events from the place `i` on whose date starts with `month`, the
/// last one first.
pub open spec fn newest_from(rows: Seq<Model>, month: Seq<char>, i: int) -> Seq<Model>
    decreases rows.len() - i,
{
    if i < 0 || i >= rows.len() {
        Seq::<Model>::empty()
    } else if starts_with(rows[i].date@, month) {
        newest_from(rows, month, i + 1).push(rows[i])
    } else {
        newest_from(rows, month, i + 1)
    }
}

/// The newest events from a later place on are the first of the newest from
/// an earlier place on.
pub proof fn lemma_newest_first(rows: Seq<Model>, month: Seq<char>, i: int, j: int)
    requires
        0 <= i <= j <= rows.len(),
    ensures
        newest_from(rows, month, j).len() <= newest_from(rows, month, i).len(),
        newest_from(rows, month, i).take(newest_from(rows, month, j).len() as int) == newest_from(
            rows,
            month,
            j,
        ),
    decreases j - i,
{
    if i < j {
        lemma_newest_first(rows, month, i + 1, j);
        let later = newest_from(rows, month, j);
        let mid = newest_from(rows, month, i + 1);
        let all = newest_from(rows, month, i);
        assert(all.take(later.len() as int) =~= mid.take(later.len() as int));
    } else {
        let all = newest_from(rows, month, i);
        assert(all.take(all.len() as int) =~= all);
    }
}

/// The events of the month `month`, which is the start of their date, the
/// last one first, a thousand at most.
pub fn get_messages_current_month(store: &Store, month: &str) -> (r: Vec<Model>)
    ensures
        r@.len() <= 1000,
        r@.len() <= newest_from(store.system_events@, month@, 0).len(),
        r@ == newest_from(store.system_events@, month@, 0).take(r@.len() as int),
        r@.len() < 1000 ==> r@ == newest_from(store.system_events@, month@, 0),
{
    let mut r: Vec<Model> = Vec::new();
    let mut i: usize = store.system_events.len();
    while i > 0 && r.len() < 1000
        invariant
            i <= store.system_events.len(),
            r@.len() <= 1000,
            r@ == newest_from(store.system_events@, month@, i as int),
        decreases i,
    {
        i -= 1;
        if has_start(store.system_events[i].date.as_str(), month) {
            r.push(store.system_events[i].duplicate());
        }
    }
    proof {
        lemma_newest_first(store.system_events@, month@, 0, i as int);
    }
    r
}

} // verus!
