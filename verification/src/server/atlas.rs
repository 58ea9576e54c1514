//! The dependency graph of one bucket, as the atlas page draws it.
//!
//! Every module of the bucket but `base` is a node, keyed by `o_` and its
//! technical name. What such a module depends on is a node too: `o_` and the
//! name for a peer module (`base` left out), `p_` for an interpreter package,
//! `b_` for a binary tool. From each module an edge leads to each of its
//! dependencies. No key occurs twice among the nodes, and none among the
//! edges.

use crate::models::dependency_module;
use crate::models::dependency_type;
use crate::models::gh_repository;
use crate::models::module;
use crate::models::store::Store;
use crate::names::holds_text;
use crate::text::{same_text, texts};
use vstd::prelude::*;
use vstd::string::*;

verus! {

/// A node: its key and what is known of it, each attribute once.
#[derive(Debug)]
pub struct GraphNodeInfo {
    pub key: String,
    pub attributes: Vec<(String, String)>,
}

/// An edge: its key, the keys of the nodes that it joins, and what is known
/// of it.
#[derive(Debug)]
pub struct GraphEdgeInfo {
    pub key: String,
    pub source: String,
    pub target: String,
    pub undirected: bool,
    pub attributes: Vec<(String, String)>,
}

/// A graph.
#[derive(Debug)]
pub struct GraphInfo {
    pub attributes: Vec<(String, String)>,
    pub nodes: Vec<GraphNodeInfo>,
    pub edges: Vec<GraphEdgeInfo>,
}

/// The attributes `v` as texts.
pub open spec fn attrs(v: Seq<(String, String)>) -> Seq<(Seq<char>, Seq<char>)> {
    Seq::new(v.len(), |i: int| (v[i].0@, v[i].1@))
}

/// Where the attribute `key` stands in `a`; the length of `a` where `a` has
/// none of that name.
pub open spec fn place_of(a: Seq<(Seq<char>, Seq<char>)>, key: Seq<char>) -> int
    decreases a.len(),
{
    if a.len() == 0 {
        0
    } else if a[0].0 == key {
        0
    } else {
        1 + place_of(a.drop_first(), key)
    }
}

/// The attributes `a` with `key` set to `value`: in place where `a` has the
/// attribute, behind the others where it has not.
pub open spec fn with_attr(
    a: Seq<(Seq<char>, Seq<char>)>,
    key: Seq<char>,
    value: Seq<char>,
) -> Seq<(Seq<char>, Seq<char>)> {
    let i = place_of(a, key);
    if i < a.len() {
        a.update(i, (key, value))
    } else {
        a.push((key, value))
    }
}

proof fn lemma_place_of(a: Seq<(Seq<char>, Seq<char>)>, key: Seq<char>, i: int)
    requires
        0 <= i <= a.len(),
        forall|k: int| 0 <= k < i ==> a[k].0 != key,
        i < a.len() ==> a[i].0 == key,
    ensures
        place_of(a, key) == i,
    decreases i,
{
    if i > 0 {
        let t = a.drop_first();
        assert forall|k: int| 0 <= k < i - 1 implies t[k].0 != key by {
            assert(t[k] == a[k + 1]);
        }
        lemma_place_of(t, key, i - 1);
    }
}

impl GraphNodeInfo {
    /// Sets the attribute `key` to `value`.
    pub fn update(&mut self, key: &str, value: &str)
        ensures
            final(self).key == old(self).key,
            attrs(final(self).attributes@) == with_attr(
                attrs(old(self).attributes@),
                key@,
                value@,
            ),
    {
        let ghost a = attrs(self.attributes@);
        let mut i: usize = 0;
        while i < self.attributes.len()
            invariant
                i <= self.attributes.len(),
                *self == *old(self),
                a == attrs(self.attributes@),
                forall|k: int| 0 <= k < i ==> a[k].0 != key@,
            decreases self.attributes.len() - i,
        {
            if same_text(self.attributes[i].0.as_str(), key) {
                proof {
                    assert(a[i as int].0 == key@);
                    lemma_place_of(a, key@, i as int);
                }
                self.attributes.set(i, (key.to_owned(), value.to_owned()));
                assert(attrs(self.attributes@) =~= a.update(i as int, (key@, value@)));
                return ;
            }
            i += 1;
        }
        proof {
            lemma_place_of(a, key@, a.len() as int);
        }
        self.attributes.push((key.to_owned(), value.to_owned()));
        assert(attrs(self.attributes@) =~= a.push((key@, value@)));
    }
}

/// The size of the node of a module, by its rank: whether it lives in the
/// first-party repository, and whether it is an application.
pub open spec fn size_of(first_party: bool, application: bool) -> Seq<char> {
    if first_party {
        if application {
            "12"@
        } else {
            "10"@
        }
    } else if application {
        "9"@
    } else {
        "8"@
    }
}

/// The colour of the node of a module, by its rank.
pub open spec fn color_of(first_party: bool, application: bool) -> Seq<char> {
    if application {
        "#21B799"@
    } else if first_party {
        "#017E84"@
    } else {
        "#E46E78"@
    }
}

/// The attributes `a` with those of a module's rank set in turn: `size`,
/// `color`, `label` and `repository`. Each is set in place where `a` has
/// it, and put behind the others where it has not; what else `a` holds
/// stays.
pub open spec fn ranked(
    a: Seq<(Seq<char>, Seq<char>)>,
    first_party: bool,
    application: bool,
    technical_name: Seq<char>,
    repository: Seq<char>,
) -> Seq<(Seq<char>, Seq<char>)> {
    with_attr(
        with_attr(
            with_attr(
                with_attr(a, "size"@, size_of(first_party, application)),
                "color"@,
                color_of(first_party, application),
            ),
            "label"@,
            technical_name,
        ),
        "repository"@,
        repository,
    )
}

/// The attributes of the node of a module, by its rank: whether it lives in
/// the first-party repository, and whether it is an application.
pub open spec fn main_attrs(
    first_party: bool,
    application: bool,
    technical_name: Seq<char>,
    repository: Seq<char>,
) -> Seq<(Seq<char>, Seq<char>)> {
    seq![
        ("size"@, size_of(first_party, application)),
        ("color"@, color_of(first_party, application)),
        ("label"@, technical_name),
        ("repository"@, repository),
    ]
}

/// The four attribute names differ.
proof fn lemma_attr_names()
    ensures
        "size"@ != "color"@,
        "size"@ != "label"@,
        "size"@ != "repository"@,
        "color"@ != "label"@,
        "color"@ != "repository"@,
        "label"@ != "repository"@,
{
    reveal_strlit("size");
    reveal_strlit("color");
    reveal_strlit("label");
    reveal_strlit("repository");
    assert("size"@[0] == 's');
    assert("color"@[0] == 'c');
    assert("label"@[0] == 'l');
    assert("repository"@[0] == 'r');
}

/// A node without attributes gets exactly the four of its rank.
pub proof fn lemma_ranked_from_nothing(
    first_party: bool,
    application: bool,
    technical_name: Seq<char>,
    repository: Seq<char>,
)
    ensures
        ranked(
            Seq::<(Seq<char>, Seq<char>)>::empty(),
            first_party,
            application,
            technical_name,
            repository,
        ) == main_attrs(first_party, application, technical_name, repository),
{
    lemma_attr_names();
    let size = size_of(first_party, application);
    let color = color_of(first_party, application);
    let a0 = Seq::<(Seq<char>, Seq<char>)>::empty();
    let a1 = with_attr(a0, "size"@, size);
    assert(place_of(a0, "size"@) == 0);
    assert(a1 =~= seq![("size"@, size)]);
    lemma_place_of(a1, "color"@, 1);
    let a2 = with_attr(a1, "color"@, color);
    assert(a2 =~= seq![("size"@, size), ("color"@, color)]);
    lemma_place_of(a2, "label"@, 2);
    let a3 = with_attr(a2, "label"@, technical_name);
    assert(a3 =~= seq![("size"@, size), ("color"@, color), ("label"@, technical_name)]);
    lemma_place_of(a3, "repository"@, 3);
    let a4 = with_attr(a3, "repository"@, repository);
    assert(a4 =~= main_attrs(first_party, application, technical_name, repository));
}

/// Gives the node of the module `module` the attributes of its rank, over
/// whatever the node holds. The repository `gh_repo_odoo_id` is the
/// first-party one.
pub fn set_main_node_attributes(
    module: &module::Model,
    gh_repo_odoo_id: &i64,
    node_info: &mut GraphNodeInfo,
)
    ensures
        final(node_info).key == old(node_info).key,
        attrs(final(node_info).attributes@) == ranked(
            attrs(old(node_info).attributes@),
            module.gh_repository_id.0 == *gh_repo_odoo_id,
            module.application,
            module.technical_name@,
            module.gh_repository_id.1@,
        ),
{
    let first_party = module.gh_repository_id.0 == *gh_repo_odoo_id;
    let size = if first_party {
        if module.application {
            "12"
        } else {
            "10"
        }
    } else if module.application {
        "9"
    } else {
        "8"
    };
    let color = if module.application {
        "#21B799"
    } else if first_party {
        "#017E84"
    } else {
        "#E46E78"
    };
    node_info.update("size", size);
    node_info.update("color", color);
    node_info.update("label", module.technical_name.as_str());
    node_info.update("repository", module.gh_repository_id.1.as_str());
}

/// Whether the module at `j` is drawn for the bucket `bucket`: it belongs
/// to the bucket and is not `base`.
pub open spec fn is_drawn(store: Store, bucket: u8, j: int) -> bool {
    &&& 0 <= j < store.modules@.len()
    &&& store.modules@[j].version_odoo == bucket
    &&& store.modules@[j].technical_name@ != "base"@
}

/// Whether a module of the bucket `bucket` has the technical name `name`.
pub open spec fn is_main_name(store: Store, bucket: u8, name: Seq<char>) -> bool {
    exists|j: int|
        0 <= j < store.modules@.len() && (#[trigger] store.modules@[j]).version_odoo == bucket
            && store.modules@[j].technical_name@ == name
}

/// What the key of a node starts with, by the kind of what the node stands
/// for.
pub open spec fn prefix_of(dep_type_id: i64) -> Seq<char> {
    if dep_type_id == dependency_type::MODULE {
        "o_"@
    } else if dep_type_id == dependency_type::PYTHON {
        "p_"@
    } else {
        "b_"@
    }
}

/// Whether the module at `j` is drawn with an edge to the dependency `dep`
/// of the kind `t`: it is drawn, it has the dependency, and the dependency
/// is not the peer module `base`.
pub open spec fn is_drawn_edge(store: Store, bucket: u8, j: int, t: i64, dep: Seq<char>) -> bool {
    &&& is_drawn(store, bucket, j)
    &&& dependency_type::is_id(t)
    &&& dependency_module::has_name(
        store.dependency_modules@,
        store.dependencies@,
        store.modules@[j].id,
        t,
        dep,
    )
    &&& t == dependency_type::MODULE ==> dep != "base"@
}

/// The key of the node of the dependency `dep` of the kind `t`.
pub open spec fn node_key(t: i64, dep: Seq<char>) -> Seq<char> {
    prefix_of(t) + dep
}

/// The key of the edge from the module `technical_name` to its dependency
/// `dep` of the kind `t`.
pub open spec fn edge_key(t: i64, technical_name: Seq<char>, dep: Seq<char>) -> Seq<char> {
    prefix_of(t) + technical_name + "__"@ + dep
}

/// Whether `key` is the key of a node of the graph of the bucket: of a drawn
/// module, or of something that a drawn module depends on.
pub open spec fn is_node_key(store: Store, bucket: u8, key: Seq<char>) -> bool {
    ||| exists|j: int|
        #[trigger] is_drawn(store, bucket, j) && key == node_key(
            dependency_type::MODULE,
            store.modules@[j].technical_name@,
        )
    ||| exists|j: int, t: i64, dep: Seq<char>|
        #[trigger] is_drawn_edge(store, bucket, j, t, dep) && key == node_key(t, dep)
}

/// Whether `key` is the key of an edge of the graph of the bucket.
pub open spec fn is_edge_key(store: Store, bucket: u8, key: Seq<char>) -> bool {
    exists|j: int, t: i64, dep: Seq<char>|
        #[trigger] is_drawn_edge(store, bucket, j, t, dep) && key == edge_key(
            t,
            store.modules@[j].technical_name@,
            dep,
        )
}

/// The attributes of the node of something that is only depended on.
pub open spec fn placeholder_attrs(t: i64, dep: Seq<char>) -> Seq<(Seq<char>, Seq<char>)> {
    if t == dependency_type::MODULE {
        seq![("size"@, "8"@), ("color"@, "#E46E78"@), ("label"@, dep)]
    } else if t == dependency_type::PYTHON {
        seq![("size"@, "5"@), ("color"@, "#6c5148"@), ("label"@, dep)]
    } else {
        seq![("size"@, "5"@), ("color"@, "#335548"@), ("label"@, dep)]
    }
}

/// Whether the node `node` is the node of a drawn module, with the
/// attributes of its rank, or the node of something that a drawn module
/// depends on and that is no module of the bucket itself.
pub open spec fn is_node_of(store: Store, bucket: u8, first_party: i64, node: GraphNodeInfo) -> bool {
    ||| exists|j: int|
        #[trigger] is_drawn(store, bucket, j) && node.key@ == node_key(
            dependency_type::MODULE,
            store.modules@[j].technical_name@,
        ) && attrs(node.attributes@) == main_attrs(
            store.modules@[j].gh_repository_id.0 == first_party,
            store.modules@[j].application,
            store.modules@[j].technical_name@,
            store.modules@[j].gh_repository_id.1@,
        )
    ||| exists|j: int, t: i64, dep: Seq<char>|
        #[trigger] is_drawn_edge(store, bucket, j, t, dep) && node.key@ == node_key(t, dep)
            && attrs(node.attributes@) == placeholder_attrs(t, dep) && !(t
            == dependency_type::MODULE && is_main_name(store, bucket, dep))
}

/// Whether the edge `edge` leads from a drawn module to one of its
/// dependencies.
pub open spec fn is_edge_of(store: Store, bucket: u8, edge: GraphEdgeInfo) -> bool {
    exists|j: int, t: i64, dep: Seq<char>|
        #[trigger] is_drawn_edge(store, bucket, j, t, dep) && edge.key@ == edge_key(
            t,
            store.modules@[j].technical_name@,
            dep,
        ) && edge.source@ == node_key(dependency_type::MODULE, store.modules@[j].technical_name@)
            && edge.target@ == node_key(t, dep) && !edge.undirected && attrs(edge.attributes@)
            == seq![("size"@, "2"@)]
}

/// Whether `nodes` has a node with the key `key`.
pub open spec fn has_node(nodes: Seq<GraphNodeInfo>, key: Seq<char>) -> bool {
    exists|i: int| 0 <= i < nodes.len() && (#[trigger] nodes[i]).key@ == key
}

/// Whether `edges` has an edge with the key `key`.
pub open spec fn has_edge(edges: Seq<GraphEdgeInfo>, key: Seq<char>) -> bool {
    exists|i: int| 0 <= i < edges.len() && (#[trigger] edges[i]).key@ == key
}

/// Whether the graph `g` is well made for the bucket: no key twice, every
/// node the node of something, every edge the edge of something.
pub open spec fn well_made(store: Store, bucket: u8, first_party: i64, g: GraphInfo) -> bool {
    &&& g.attributes@.len() == 0
    &&& forall|a: int, b: int|
        0 <= a < b < g.nodes@.len() ==> (#[trigger] g.nodes@[a]).key@ != (
        #[trigger] g.nodes@[b]).key@
    &&& forall|a: int, b: int|
        0 <= a < b < g.edges@.len() ==> (#[trigger] g.edges@[a]).key@ != (
        #[trigger] g.edges@[b]).key@
    &&& forall|i: int|
        0 <= i < g.nodes@.len() ==> is_node_of(store, bucket, first_party, #[trigger] g.nodes@[i])
    &&& forall|i: int| 0 <= i < g.edges@.len() ==> is_edge_of(store, bucket, #[trigger] g.edges@[i])
}

/// Whether the graph `later` has the keys of `earlier`.
pub open spec fn keeps(earlier: GraphInfo, later: GraphInfo) -> bool {
    &&& forall|key: Seq<char>| #[trigger] has_node(earlier.nodes@, key) ==> has_node(later.nodes@, key)
    &&& forall|key: Seq<char>| #[trigger] has_edge(earlier.edges@, key) ==> has_edge(later.edges@, key)
}

/// Whether the module at `j` is drawn in full in `g`: its own node, an edge
/// to each of its dependencies, and a node for each dependency that is no
/// module of the bucket.
pub open spec fn is_drawn_in(store: Store, bucket: u8, j: int, g: GraphInfo) -> bool {
    is_drawn(store, bucket, j) ==> {
        &&& has_node(
            g.nodes@,
            node_key(dependency_type::MODULE, store.modules@[j].technical_name@),
        )
        &&& forall|t: i64, dep: Seq<char>|
            #[trigger] is_drawn_edge(store, bucket, j, t, dep) ==> has_edge(
                g.edges@,
                edge_key(t, store.modules@[j].technical_name@, dep),
            ) && (!(t == dependency_type::MODULE && is_main_name(store, bucket, dep)) ==> has_node(
                g.nodes@,
                node_key(t, dep),
            ))
    }
}

fn joined(a: &str, b: &str) -> (r: String)
    ensures
        r@ == a@ + b@,
{
    let mut r = String::new();
    r.append(a);
    r.append(b);
    assert(r@ =~= a@ + b@);
    r
}

fn prefix_text(t: i64) -> (r: &'static str)
    requires
        dependency_type::is_id(t),
    ensures
        r@ == prefix_of(t),
{
    if t == 1 {
        "o_"
    } else if t == 2 {
        "p_"
    } else {
        "b_"
    }
}

fn find_node(nodes: &Vec<GraphNodeInfo>, key: &str) -> (r: Option<usize>)
    ensures
        r is Some <==> has_node(nodes@, key@),
        r matches Some(i) ==> i < nodes@.len() && nodes@[i as int].key@ == key@,
{
    let mut i: usize = 0;
    while i < nodes.len()
        invariant
            i <= nodes.len(),
            forall|k: int| 0 <= k < i ==> (#[trigger] nodes@[k]).key@ != key@,
        decreases nodes.len() - i,
    {
        if same_text(nodes[i].key.as_str(), key) {
            return Some(i);
        }
        i += 1;
    }
    None
}

fn find_edge(edges: &Vec<GraphEdgeInfo>, key: &str) -> (r: bool)
    ensures
        r == has_edge(edges@, key@),
{
    let mut i: usize = 0;
    while i < edges.len()
        invariant
            i <= edges.len(),
            forall|k: int| 0 <= k < i ==> (#[trigger] edges@[k]).key@ != key@,
        decreases edges.len() - i,
    {
        if same_text(edges[i].key.as_str(), key) {
            return true;
        }
        i += 1;
    }
    false
}

fn placeholder(t: i64, key: String, dep: &str) -> (r: GraphNodeInfo)
    requires
        dependency_type::is_id(t),
    ensures
        r.key == key,
        attrs(r.attributes@) == placeholder_attrs(t, dep@),
{
    let size = if t == 1 {
        "8"
    } else {
        "5"
    };
    let color = if t == 1 {
        "#E46E78"
    } else if t == 2 {
        "#6c5148"
    } else {
        "#335548"
    };
    let mut attributes: Vec<(String, String)> = Vec::new();
    attributes.push(("size".to_owned(), size.to_owned()));
    attributes.push(("color".to_owned(), color.to_owned()));
    attributes.push(("label".to_owned(), dep.to_owned()));
    assert(attrs(attributes@) =~= placeholder_attrs(t, dep@));
    GraphNodeInfo { key, attributes }
}

/// Draws the dependencies of the kind `t` of the module at `j`.
fn draw_dependencies(
    store: &Store,
    g: &mut GraphInfo,
    j: usize,
    t: i64,
    main_names: &Vec<String>,
    Ghost(bucket): Ghost<u8>,
    Ghost(first_party): Ghost<i64>,
)
    requires
        store.wf(),
        is_drawn(*store, bucket, j as int),
        dependency_type::is_id(t),
        well_made(*store, bucket, first_party, *old(g)),
        forall|n: Seq<char>| #[trigger]
            texts(main_names@).contains(n) <==> is_main_name(*store, bucket, n),
    ensures
        well_made(*store, bucket, first_party, *final(g)),
        keeps(*old(g), *final(g)),
        forall|dep: Seq<char>|
            #[trigger] is_drawn_edge(*store, bucket, j as int, t, dep) ==> has_edge(
                final(g).edges@,
                edge_key(t, store.modules@[j as int].technical_name@, dep),
            ) && (!(t == dependency_type::MODULE && is_main_name(*store, bucket, dep))
                ==> has_node(final(g).nodes@, node_key(t, dep))),
{
    let names = dependency_module::get_names(store, &store.modules[j].id, &t);
    let ghost all = texts(names@);
    let source = joined("o_", store.modules[j].technical_name.as_str());
    let mut i: usize = 0;
    proof {
        assert forall|dep: Seq<char>| all.contains(dep) <==> dependency_module::has_name(
            store.dependency_modules@,
            store.dependencies@,
            store.modules@[j as int].id,
            t,
            dep,
        ) by {
            dependency_module::lemma_names_of_module(
                store.dependency_modules@,
                store.dependencies@,
                store.modules@[j as int].id,
                t,
                dep,
            );
        }
    }
    while i < names.len()
        invariant
            i <= names.len(),
            store.wf(),
            is_drawn(*store, bucket, j as int),
            dependency_type::is_id(t),
            all == texts(names@),
            source@ == node_key(dependency_type::MODULE, store.modules@[j as int].technical_name@),
            forall|dep: Seq<char>|
                all.contains(dep) <==> dependency_module::has_name(
                    store.dependency_modules@,
                    store.dependencies@,
                    store.modules@[j as int].id,
                    t,
                    dep,
                ),
            forall|n: Seq<char>| #[trigger]
                texts(main_names@).contains(n) <==> is_main_name(*store, bucket, n),
            well_made(*store, bucket, first_party, *g),
            keeps(*old(g), *g),
            forall|dep: Seq<char>|
                #[trigger] is_drawn_edge(*store, bucket, j as int, t, dep) && all.take(
                    i as int,
                ).contains(dep) ==> has_edge(
                    g.edges@,
                    edge_key(t, store.modules@[j as int].technical_name@, dep),
                ) && (!(t == dependency_type::MODULE && is_main_name(*store, bucket, dep))
                    ==> has_node(g.nodes@, node_key(t, dep))),
        decreases names.len() - i,
    {
        let ghost dep = all[i as int];
        let ghost before = *g;
        assert(dep == names@[i as int]@);
        assert(all.contains(dep));
        let skip = t == 1 && same_text(names[i].as_str(), "base");
        if !skip {
            assert(is_drawn_edge(*store, bucket, j as int, t, dep));
            let key = joined(prefix_text(t), names[i].as_str());
            let wanted = !(t == 1 && holds_text(main_names, names[i].as_str()));
            if wanted && find_node(&g.nodes, key.as_str()).is_none() {
                let node = placeholder(t, key.clone(), names[i].as_str());
                let ghost was = g.nodes@;
                g.nodes.push(node);
                proof {
                    let now_are = g.nodes@;
                    assert(is_node_of(*store, bucket, first_party, now_are[was.len() as int]));
                    assert forall|k: int| 0 <= k < was.len() implies now_are[k] == was[k] by {}
                    assert forall|k: Seq<char>| #[trigger] has_node(was, k) implies has_node(
                        now_are,
                        k,
                    ) by {
                        let w = choose|w: int| 0 <= w < was.len() && (#[trigger] was[w]).key@ == k;
                        assert(now_are[w].key@ == k);
                    }
                    assert(has_node(now_are, key@));
                }
            }
            let mut label = joined(prefix_text(t), store.modules[j].technical_name.as_str());
            label.append("__");
            label.append(names[i].as_str());
            assert(label@ =~= edge_key(t, store.modules@[j as int].technical_name@, dep));
            if !find_edge(&g.edges, label.as_str()) {
                let mut attributes: Vec<(String, String)> = Vec::new();
                attributes.push(("size".to_owned(), "2".to_owned()));
                assert(attrs(attributes@) =~= seq![("size"@, "2"@)]);
                let edge = GraphEdgeInfo {
                    key: label,
                    source: source.clone(),
                    target: key,
                    undirected: false,
                    attributes,
                };
                let ghost was = g.edges@;
                g.edges.push(edge);
                proof {
                    let now_are = g.edges@;
                    assert(is_edge_of(*store, bucket, now_are[was.len() as int]));
                    assert forall|k: int| 0 <= k < was.len() implies now_are[k] == was[k] by {}
                    assert forall|k: Seq<char>| #[trigger] has_edge(was, k) implies has_edge(
                        now_are,
                        k,
                    ) by {
                        let w = choose|w: int| 0 <= w < was.len() && (#[trigger] was[w]).key@ == k;
                        assert(now_are[w].key@ == k);
                    }
                }
            }
        }
        proof {
            assert forall|d: Seq<char>|
                #[trigger] is_drawn_edge(*store, bucket, j as int, t, d) && all.take(
                    i + 1,
                ).contains(d) implies has_edge(
                g.edges@,
                edge_key(t, store.modules@[j as int].technical_name@, d),
            ) && (!(t == dependency_type::MODULE && is_main_name(*store, bucket, d)) ==> has_node(
                g.nodes@,
                node_key(t, d),
            )) by {
                crate::names::lemma_take_contains_step(all, i as int, d);
                if all.take(i as int).contains(d) {
                    assert(has_edge(
                        before.edges@,
                        edge_key(t, store.modules@[j as int].technical_name@, d),
                    ));
                }
            }
            assert(keeps(*old(g), *g)) by {
                assert forall|k: Seq<char>| #[trigger] has_node(old(g).nodes@, k) implies has_node(
                    g.nodes@,
                    k,
                ) by {
                    assert(has_node(before.nodes@, k));
                }
                assert forall|k: Seq<char>| #[trigger] has_edge(old(g).edges@, k) implies has_edge(
                    g.edges@,
                    k,
                ) by {
                    assert(has_edge(before.edges@, k));
                }
            }
        }
        i += 1;
    }
    proof {
        assert(all.take(names@.len() as int) =~= all);
    }
}

/// Draws the node of the module at `j`, in the place of a node with its key
/// where the graph has one.
fn draw_module(
    store: &Store,
    g: &mut GraphInfo,
    j: usize,
    gh_repo_odoo_id: i64,
    Ghost(bucket): Ghost<u8>,
)
    requires
        store.wf(),
        is_drawn(*store, bucket, j as int),
        well_made(*store, bucket, gh_repo_odoo_id, *old(g)),
    ensures
        well_made(*store, bucket, gh_repo_odoo_id, *final(g)),
        keeps(*old(g), *final(g)),
        has_node(
            final(g).nodes@,
            node_key(dependency_type::MODULE, store.modules@[j as int].technical_name@),
        ),
        final(g).edges == old(g).edges,
{
    let key = joined("o_", store.modules[j].technical_name.as_str());
    let found = find_node(&g.nodes, key.as_str());
    let mut node = GraphNodeInfo { key, attributes: Vec::new() };
    set_main_node_attributes(&store.modules[j], &gh_repo_odoo_id, &mut node);
    proof {
        lemma_ranked_from_nothing(
            store.modules@[j as int].gh_repository_id.0 == gh_repo_odoo_id,
            store.modules@[j as int].application,
            store.modules@[j as int].technical_name@,
            store.modules@[j as int].gh_repository_id.1@,
        );
        assert(attrs(Seq::<(String, String)>::empty()) =~= Seq::<(Seq<char>, Seq<char>)>::empty());
    }
    assert(is_node_of(*store, bucket, gh_repo_odoo_id, node));
    let ghost was = g.nodes@;
    match found {
        Some(at) => {
            let gone = g.nodes.remove(at);
            proof {
                was.remove_ensures(at as int);
                let left = g.nodes@;
                assert forall|k: int| 0 <= k < left.len() implies #[trigger] left[k] == was[if k
                    < at {
                    k
                } else {
                    k + 1
                }] by {}
                assert forall|a: int, b: int| 0 <= a < b < left.len() implies (
                #[trigger] left[a]).key@ != (#[trigger] left[b]).key@ by {
                    let a2 = if a < at {
                        a
                    } else {
                        a + 1
                    };
                    let b2 = if b < at {
                        b
                    } else {
                        b + 1
                    };
                    assert(left[a] == was[a2] && left[b] == was[b2]);
                }
                assert forall|k: int| 0 <= k < left.len() implies (#[trigger] left[k]).key@
                    != node.key@ by {
                    let k2 = if k < at {
                        k
                    } else {
                        k + 1
                    };
                    assert(left[k] == was[k2]);
                    if k2 < at {
                        assert(was[k2].key@ != was[at as int].key@);
                    } else {
                        assert(was[at as int].key@ != was[k2].key@);
                    }
                }
                assert forall|k: int| 0 <= k < left.len() implies is_node_of(
                    *store,
                    bucket,
                    gh_repo_odoo_id,
                    #[trigger] left[k],
                ) by {
                    let k2 = if k < at {
                        k
                    } else {
                        k + 1
                    };
                    assert(left[k] == was[k2]);
                }
            }
        },
        None => {},
    }
    let ghost left = g.nodes@;
    g.nodes.push(node);
    proof {
        let now_are = g.nodes@;
        assert forall|k: int| 0 <= k < left.len() implies now_are[k] == left[k] by {}
        assert(now_are[left.len() as int] == node);
        assert forall|k: Seq<char>| #[trigger] has_node(was, k) implies has_node(now_are, k) by {
            let w = choose|w: int| 0 <= w < was.len() && (#[trigger] was[w]).key@ == k;
            if k == node.key@ {
                assert(now_are[left.len() as int].key@ == k);
            } else {
                match found {
                    Some(at) => {
                        was.remove_ensures(at as int);
                        if w < at {
                            assert(now_are[w] == was[w]);
                        } else {
                            assert(w != at);
                            assert(now_are[w - 1] == was[w]);
                        }
                    },
                    None => {
                        assert(now_are[w] == was[w]);
                    },
                }
            }
        }
    }
}

/// The identity of the first-party repository: the repository `odoo` of the
/// organization `odoo`; 0 where the catalog has none.
pub open spec fn first_party_id(store: Store) -> i64 {
    if gh_repository::has_named(store.repositories@, "odoo"@, "odoo"@) {
        let i = choose|i: int|
            0 <= i < store.repositories@.len() && (#[trigger] store.repositories@[i]).name@
                == "odoo"@ && store.repositories@[i].gh_organization_id.1@ == "odoo"@;
        store.repositories@[i].id
    } else {
        0
    }
}

/// The identity of the first-party repository.
pub fn first_party_repository(store: &Store) -> (r: i64)
    requires
        store.wf(),
    ensures
        r == first_party_id(*store),
{
    let repos = &store.repositories;
    let mut i: usize = 0;
    while i < repos.len()
        invariant
            i <= repos.len(),
            store.wf(),
            repos@ == store.repositories@,
            forall|k: int|
                0 <= k < i ==> !((#[trigger] repos@[k]).name@ == "odoo"@
                    && repos@[k].gh_organization_id.1@ == "odoo"@),
        decreases repos.len() - i,
    {
        if same_text(repos[i].name.as_str(), "odoo") && same_text(
            repos[i].gh_organization_id.1.as_str(),
            "odoo",
        ) {
            proof {
                let w = choose|w: int|
                    0 <= w < store.repositories@.len() && (#[trigger] store.repositories@[w]).name@
                        == "odoo"@ && store.repositories@[w].gh_organization_id.1@ == "odoo"@;
                assert(store.repositories@.contains(store.repositories@[w]));
                assert(store.repositories@.contains(store.repositories@[i as int]));
                module::lemma_one_repository(
                    *store,
                    store.repositories@[w],
                    store.repositories@[i as int],
                );
            }
            return repos[i].id;
        }
        i += 1;
    }
    0
}

/// Whether `g` is a graph of the bucket `bucket` of the catalog: it is well
/// made, its nodes have the keys of the bucket's nodes and no others, and
/// its edges the keys of the bucket's edges and no others.
pub open spec fn is_graph_of(store: Store, bucket: u8, g: GraphInfo) -> bool {
    &&& well_made(store, bucket, first_party_id(store), g)
    &&& forall|key: Seq<char>| #[trigger] has_node(g.nodes@, key) <==> is_node_key(store, bucket, key)
    &&& forall|key: Seq<char>| #[trigger] has_edge(g.edges@, key) <==> is_edge_key(store, bucket, key)
}

/// Graph determinism. Two graphs of one bucket of one catalog have the same
/// keys among their nodes and the same keys among their edges.
pub proof fn graphs_agree(store: Store, bucket: u8, a: GraphInfo, b: GraphInfo)
    requires
        is_graph_of(store, bucket, a),
        is_graph_of(store, bucket, b),
    ensures
        forall|key: Seq<char>| has_node(a.nodes@, key) <==> has_node(b.nodes@, key),
        forall|key: Seq<char>| has_edge(a.edges@, key) <==> has_edge(b.edges@, key),
{
    assert forall|key: Seq<char>| has_node(a.nodes@, key) <==> has_node(b.nodes@, key) by {
        assert(has_node(a.nodes@, key) <==> is_node_key(store, bucket, key));
        assert(has_node(b.nodes@, key) <==> is_node_key(store, bucket, key));
    }
    assert forall|key: Seq<char>| has_edge(a.edges@, key) <==> has_edge(b.edges@, key) by {
        assert(has_edge(a.edges@, key) <==> is_edge_key(store, bucket, key));
        assert(has_edge(b.edges@, key) <==> is_edge_key(store, bucket, key));
    }
}

/// The graph of the bucket `odoo_version`: a node for each module of the
/// bucket but `base` and for each thing that such a module depends on, an
/// edge from each such module to each of its dependencies, and no key twice.
pub fn get_graph_data(store: &Store, odoo_version: &u8) -> (r: GraphInfo)
    requires
        store.wf(),
    ensures
        is_graph_of(*store, *odoo_version, r),
{
    let bucket = *odoo_version;
    let gh_repo_odoo_id = first_party_repository(store);
    let mut main_names: Vec<String> = Vec::new();
    let mut j: usize = 0;
    while j < store.modules.len()
        invariant
            j <= store.modules.len(),
            forall|n: Seq<char>| #[trigger]
                texts(main_names@).contains(n) <==> exists|k: int|
                    0 <= k < j && (#[trigger] store.modules@[k]).version_odoo == bucket
                        && store.modules@[k].technical_name@ == n,
        decreases store.modules.len() - j,
    {
        if store.modules[j].version_odoo == bucket {
            let ghost was = main_names@;
            main_names.push(store.modules[j].technical_name.clone());
            proof {
                let now_are = texts(main_names@);
                assert(now_are =~= texts(was).push(store.modules@[j as int].technical_name@));
                assert forall|n: Seq<char>| #[trigger] now_are.contains(n) <==> exists|k: int|
                    0 <= k < j + 1 && (#[trigger] store.modules@[k]).version_odoo == bucket
                        && store.modules@[k].technical_name@ == n by {
                    if now_are.contains(n) {
                        let w = choose|w: int| 0 <= w < now_are.len() && now_are[w] == n;
                        if w < was.len() {
                            assert(texts(was)[w] == n);
                            assert(texts(was).contains(n));
                        }
                    }
                    if texts(was).contains(n) {
                        let w = choose|w: int| 0 <= w < texts(was).len() && texts(was)[w] == n;
                        assert(now_are[w] == n);
                    }
                    assert(now_are[was.len() as int] == store.modules@[j as int].technical_name@);
                }
            }
        }
        j += 1;
    }
    let mut g = GraphInfo { attributes: Vec::new(), nodes: Vec::new(), edges: Vec::new() };
    let mut j: usize = 0;
    while j < store.modules.len()
        invariant
            j <= store.modules.len(),
            store.wf(),
            forall|n: Seq<char>| #[trigger]
                texts(main_names@).contains(n) <==> is_main_name(*store, bucket, n),
            well_made(*store, bucket, gh_repo_odoo_id, g),
            forall|k: int| 0 <= k < j ==> #[trigger] is_drawn_in(*store, bucket, k, g),
        decreases store.modules.len() - j,
    {
        let ghost before = g;
        if store.modules[j].version_odoo == bucket && !same_text(
            store.modules[j].technical_name.as_str(),
            "base",
        ) {
            draw_dependencies(
                store,
                &mut g,
                j,
                dependency_type::MODULE,
                &main_names,
                Ghost(bucket),
                Ghost(gh_repo_odoo_id),
            );
            let ghost g1 = g;
            draw_dependencies(
                store,
                &mut g,
                j,
                dependency_type::PYTHON,
                &main_names,
                Ghost(bucket),
                Ghost(gh_repo_odoo_id),
            );
            let ghost g2 = g;
            draw_dependencies(
                store,
                &mut g,
                j,
                dependency_type::BIN,
                &main_names,
                Ghost(bucket),
                Ghost(gh_repo_odoo_id),
            );
            let ghost g3 = g;
            draw_module(store, &mut g, j, gh_repo_odoo_id, Ghost(bucket));
            proof {
                lemma_keeps(before, g1, g2);
                lemma_keeps(before, g2, g3);
                lemma_keeps(before, g3, g);
                lemma_keeps(g1, g2, g3);
                lemma_keeps(g1, g3, g);
                lemma_keeps(g2, g3, g);
                assert forall|k: int| 0 <= k < j implies #[trigger] is_drawn_in(
                    *store,
                    bucket,
                    k,
                    g,
                ) by {
                    lemma_stays_drawn(*store, bucket, k, before, g);
                }
                assert(is_drawn_in(*store, bucket, j as int, g)) by {
                    assert forall|t: i64, dep: Seq<char>|
                        #[trigger] is_drawn_edge(*store, bucket, j as int, t, dep) implies has_edge(
                        g.edges@,
                        edge_key(t, store.modules@[j as int].technical_name@, dep),
                    ) && (!(t == dependency_type::MODULE && is_main_name(*store, bucket, dep))
                        ==> has_node(g.nodes@, node_key(t, dep))) by {
                        if t == dependency_type::MODULE {
                            assert(has_edge(
                                g1.edges@,
                                edge_key(t, store.modules@[j as int].technical_name@, dep),
                            ));
                        } else if t == dependency_type::PYTHON {
                            assert(has_edge(
                                g2.edges@,
                                edge_key(t, store.modules@[j as int].technical_name@, dep),
                            ));
                        } else {
                            assert(has_edge(
                                g3.edges@,
                                edge_key(t, store.modules@[j as int].technical_name@, dep),
                            ));
                        }
                    }
                }
            }
        }
        j += 1;
    }
    proof {
        assert forall|key: Seq<char>|
            #[trigger] has_node(g.nodes@, key) <==> is_node_key(*store, bucket, key) by {
            if has_node(g.nodes@, key) {
                let i = choose|i: int| 0 <= i < g.nodes@.len() && (#[trigger] g.nodes@[i]).key@ == key;
                assert(is_node_of(*store, bucket, gh_repo_odoo_id, g.nodes@[i]));
            }
            if is_node_key(*store, bucket, key) {
                if exists|k: int|
                    #[trigger] is_drawn(*store, bucket, k) && key == node_key(
                        dependency_type::MODULE,
                        store.modules@[k].technical_name@,
                    ) {
                    let k = choose|k: int|
                        #[trigger] is_drawn(*store, bucket, k) && key == node_key(
                            dependency_type::MODULE,
                            store.modules@[k].technical_name@,
                        );
                    assert(is_drawn_in(*store, bucket, k, g));
                } else {
                    let (k, t, dep) = choose|k: int, t: i64, dep: Seq<char>|
                        #[trigger] is_drawn_edge(*store, bucket, k, t, dep) && key == node_key(
                            t,
                            dep,
                        );
                    assert(is_drawn_in(*store, bucket, k, g));
                    if t == dependency_type::MODULE && is_main_name(*store, bucket, dep) {
                        let m = choose|m: int|
                            0 <= m < store.modules@.len() && (
                            #[trigger] store.modules@[m]).version_odoo == bucket
                                && store.modules@[m].technical_name@ == dep;
                        assert(is_drawn(*store, bucket, m));
                        assert(is_drawn_in(*store, bucket, m, g));
                    }
                }
            }
        }
        assert forall|key: Seq<char>|
            #[trigger] has_edge(g.edges@, key) <==> is_edge_key(*store, bucket, key) by {
            if has_edge(g.edges@, key) {
                let i = choose|i: int| 0 <= i < g.edges@.len() && (#[trigger] g.edges@[i]).key@ == key;
                assert(is_edge_of(*store, bucket, g.edges@[i]));
            }
            if is_edge_key(*store, bucket, key) {
                let (k, t, dep) = choose|k: int, t: i64, dep: Seq<char>|
                    #[trigger] is_drawn_edge(*store, bucket, k, t, dep) && key == edge_key(
                        t,
                        store.modules@[k].technical_name@,
                        dep,
                    );
                assert(is_drawn_in(*store, bucket, k, g));
            }
        }
    }
    g
}

/// What a graph has, a graph that keeps it has too.
proof fn lemma_keeps(a: GraphInfo, b: GraphInfo, c: GraphInfo)
    requires
        keeps(a, b),
        keeps(b, c),
    ensures
        keeps(a, c),
{
    assert forall|key: Seq<char>| #[trigger] has_node(a.nodes@, key) implies has_node(
        c.nodes@,
        key,
    ) by {
        assert(has_node(b.nodes@, key));
    }
    assert forall|key: Seq<char>| #[trigger] has_edge(a.edges@, key) implies has_edge(
        c.edges@,
        key,
    ) by {
        assert(has_edge(b.edges@, key));
    }
}

/// A module that is drawn in full stays so in a graph that keeps what the
/// graph has.
proof fn lemma_stays_drawn(store: Store, bucket: u8, j: int, earlier: GraphInfo, later: GraphInfo)
    requires
        is_drawn_in(store, bucket, j, earlier),
        keeps(earlier, later),
    ensures
        is_drawn_in(store, bucket, j, later),
{
    if is_drawn(store, bucket, j) {
        assert forall|t: i64, dep: Seq<char>|
            #[trigger] is_drawn_edge(store, bucket, j, t, dep) implies has_edge(
            later.edges@,
            edge_key(t, store.modules@[j].technical_name@, dep),
        ) && (!(t == dependency_type::MODULE && is_main_name(store, bucket, dep)) ==> has_node(
            later.nodes@,
            node_key(t, dep),
        )) by {
            assert(has_edge(
                earlier.edges@,
                edge_key(t, store.modules@[j].technical_name@, dep),
            ));
        }
    }
}

} // verus!
