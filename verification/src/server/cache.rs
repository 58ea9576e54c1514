//! The cache of the atlas: the graph of a bucket is kept for a while, so
//! that drawing the page again does not walk the catalog again.
//!
//! The cache forgets a graph when its time is up, and may be asked to forget
//! everything when the catalog changes. A graph that it hands out is a graph
//! of the catalog as long as every graph that was put into it was one.

use crate::models::store::Store;
use crate::server::atlas::{
    first_party_id, get_graph_data, has_edge, has_node, is_edge_key, is_edge_of, is_graph_of,
    is_node_key, is_node_of, GraphEdgeInfo, GraphInfo, GraphNodeInfo,
};
use vstd::prelude::*;

verus! {

#[verifier::external_type_specification]
#[verifier::external_body]
#[verifier::reject_recursive_types(K)]
#[verifier::reject_recursive_types(V)]
#[verifier::reject_recursive_types(S)]
pub struct ExTtlCache<K, V, S>(cached::TtlCache<K, V, S>);

/// The graphs that the cache holds, by bucket, those whose time is up but
/// that have not been swept out among them.
pub uninterp spec fn cached_graphs(cache: cached::TtlCache<u8, GraphInfo>) -> Map<u8, GraphInfo>;

/// No graphs.
pub open spec fn no_graphs() -> Map<u8, GraphInfo> {
    Map::empty()
}

fn copy_attributes(v: &Vec<(String, String)>) -> (r: Vec<(String, String)>)
    ensures
        r@ == v@,
{
    let mut r: Vec<(String, String)> = Vec::new();
    let mut i: usize = 0;
    while i < v.len()
        invariant
            i <= v.len(),
            r@ == v@.take(i as int),
        decreases v.len() - i,
    {
        r.push((v[i].0.clone(), v[i].1.clone()));
        assert(r@ =~= v@.take(i + 1));
        i += 1;
    }
    assert(v@.take(v.len() as int) =~= v@);
    r
}

/// Whether the graphs `a` and `b` hold the same: the same attributes, the
/// same nodes and the same edges, in the same order.
pub open spec fn same_graph(a: GraphInfo, b: GraphInfo) -> bool {
    &&& a.attributes@ == b.attributes@
    &&& a.nodes@.len() == b.nodes@.len()
    &&& a.edges@.len() == b.edges@.len()
    &&& forall|i: int|
        0 <= i < a.nodes@.len() ==> (#[trigger] a.nodes@[i]).key == b.nodes@[i].key
            && a.nodes@[i].attributes@ == b.nodes@[i].attributes@
    &&& forall|i: int|
        0 <= i < a.edges@.len() ==> (#[trigger] a.edges@[i]).key == b.edges@[i].key
            && a.edges@[i].source == b.edges@[i].source && a.edges@[i].target
            == b.edges@[i].target && a.edges@[i].undirected == b.edges@[i].undirected
            && a.edges@[i].attributes@ == b.edges@[i].attributes@
}

/// A graph that holds the same as a graph of a bucket is a graph of that
/// bucket.
pub proof fn lemma_same_graph(store: Store, bucket: u8, a: GraphInfo, b: GraphInfo)
    requires
        same_graph(a, b),
        is_graph_of(store, bucket, a),
    ensures
        is_graph_of(store, bucket, b),
{
    let fp = first_party_id(store);
    assert forall|x: int, y: int| 0 <= x < y < b.nodes@.len() implies (#[trigger] b.nodes@[x]).key@
        != (#[trigger] b.nodes@[y]).key@ by {
        assert(a.nodes@[x].key@ != a.nodes@[y].key@);
    }
    assert forall|x: int, y: int| 0 <= x < y < b.edges@.len() implies (#[trigger] b.edges@[x]).key@
        != (#[trigger] b.edges@[y]).key@ by {
        assert(a.edges@[x].key@ != a.edges@[y].key@);
    }
    assert forall|i: int| 0 <= i < b.nodes@.len() implies is_node_of(
        store,
        bucket,
        fp,
        #[trigger] b.nodes@[i],
    ) by {
        assert(is_node_of(store, bucket, fp, a.nodes@[i]));
    }
    assert forall|i: int| 0 <= i < b.edges@.len() implies is_edge_of(
        store,
        bucket,
        #[trigger] b.edges@[i],
    ) by {
        assert(is_edge_of(store, bucket, a.edges@[i]));
    }
    assert forall|key: Seq<char>| #[trigger] has_node(b.nodes@, key) <==> is_node_key(
        store,
        bucket,
        key,
    ) by {
        if has_node(b.nodes@, key) {
            let i = choose|i: int| 0 <= i < b.nodes@.len() && (#[trigger] b.nodes@[i]).key@ == key;
            assert(a.nodes@[i].key@ == key);
        }
        if has_node(a.nodes@, key) {
            let i = choose|i: int| 0 <= i < a.nodes@.len() && (#[trigger] a.nodes@[i]).key@ == key;
            assert(b.nodes@[i].key@ == key);
        }
    }
    assert forall|key: Seq<char>| #[trigger] has_edge(b.edges@, key) <==> is_edge_key(
        store,
        bucket,
        key,
    ) by {
        if has_edge(b.edges@, key) {
            let i = choose|i: int| 0 <= i < b.edges@.len() && (#[trigger] b.edges@[i]).key@ == key;
            assert(a.edges@[i].key@ == key);
        }
        if has_edge(a.edges@, key) {
            let i = choose|i: int| 0 <= i < a.edges@.len() && (#[trigger] a.edges@[i]).key@ == key;
            assert(b.edges@[i].key@ == key);
        }
    }
}

/// A copy of the graph `g`.
pub fn copy_graph(g: &GraphInfo) -> (r: GraphInfo)
    ensures
        same_graph(r, *g),
        same_graph(*g, r),
{
    let mut nodes: Vec<GraphNodeInfo> = Vec::new();
    let mut i: usize = 0;
    while i < g.nodes.len()
        invariant
            i <= g.nodes.len(),
            nodes@.len() == i,
            forall|k: int|
                0 <= k < i ==> (#[trigger] nodes@[k]).key == g.nodes@[k].key
                    && nodes@[k].attributes@ == g.nodes@[k].attributes@,
        decreases g.nodes.len() - i,
    {
        let attributes = copy_attributes(&g.nodes[i].attributes);
        nodes.push(GraphNodeInfo { key: g.nodes[i].key.clone(), attributes });
        i += 1;
    }
    let mut edges: Vec<GraphEdgeInfo> = Vec::new();
    let mut j: usize = 0;
    while j < g.edges.len()
        invariant
            j <= g.edges.len(),
            edges@.len() == j,
            forall|k: int|
                0 <= k < j ==> (#[trigger] edges@[k]).key == g.edges@[k].key && edges@[k].source
                    == g.edges@[k].source && edges@[k].target == g.edges@[k].target
                    && edges@[k].undirected == g.edges@[k].undirected && edges@[k].attributes@
                    == g.edges@[k].attributes@,
        decreases g.edges.len() - j,
    {
        let attributes = copy_attributes(&g.edges[j].attributes);
        edges.push(
            GraphEdgeInfo {
                key: g.edges[j].key.clone(),
                source: g.edges[j].source.clone(),
                target: g.edges[j].target.clone(),
                undirected: g.edges[j].undirected,
                attributes,
            },
        );
        j += 1;
    }
    GraphInfo { attributes: copy_attributes(&g.attributes), nodes, edges }
}

/// `TtlCache::builder`, `ttl_secs` and `build` of the crate `cached`: a
/// cache that keeps what is put into it for `ttl_secs` seconds. `build`
/// refuses a builder whose time to live is not set or is zero, and nothing
/// else; the time is set here, so there is a cache exactly where `ttl_secs`
/// is not zero. The new cache holds nothing.
#[verifier::external_body]
fn new_cache(ttl_secs: u64) -> (r: Option<cached::TtlCache<u8, GraphInfo>>)
    ensures
        r is Some <==> ttl_secs != 0,
        r matches Some(c) ==> cached_graphs(c) == no_graphs(),
{
    cached::TtlCache::builder().ttl_secs(ttl_secs).build().ok()
}

/// `Cached::cache_get` of the crate `cached`, on a `TtlCache`: hands a copy
/// of the graph of `key` out where the cache holds one whose time is not up.
/// Whether the time is up is not said here. A graph that is found whose time
/// is up is swept out; nothing else changes.
#[verifier::external_body]
fn cache_get(cache: &mut cached::TtlCache<u8, GraphInfo>, key: u8) -> (r: Option<GraphInfo>)
    ensures
        r matches Some(g) ==> cached_graphs(*old(cache)).contains_key(key) && same_graph(
            cached_graphs(*old(cache))[key],
            g,
        ) && cached_graphs(*final(cache)) == cached_graphs(*old(cache)),
        r is None ==> cached_graphs(*final(cache)) == cached_graphs(*old(cache)).remove(key),
{
    cached::Cached::cache_get(cache, &key).map(|g| copy_graph(g))
}

/// `Cached::cache_set` of the crate `cached`, on a `TtlCache`: puts `graph`
/// in as the graph of `key`, in the place of the one that the cache held for
/// that key; nothing else changes.
#[verifier::external_body]
fn cache_set(cache: &mut cached::TtlCache<u8, GraphInfo>, key: u8, graph: GraphInfo)
    ensures
        cached_graphs(*final(cache)) == cached_graphs(*old(cache)).insert(key, graph),
{
    let _ = cached::Cached::cache_set(cache, key, graph);
}

/// `Cached::cache_clear` of the crate `cached`, on a `TtlCache`: the cache
/// holds nothing afterwards.
#[verifier::external_body]
fn cache_clear(cache: &mut cached::TtlCache<u8, GraphInfo>)
    ensures
        cached_graphs(*final(cache)) == no_graphs(),
{
    cached::Cached::cache_clear(cache);
}

/// The cache of the atlas.
pub struct GraphCache {
    inner: cached::TtlCache<u8, GraphInfo>,
}

impl GraphCache {
    /// The graphs that the cache holds, by bucket.
    pub closed spec fn graphs(&self) -> Map<u8, GraphInfo> {
        cached_graphs(self.inner)
    }

    /// Whether every graph that the cache holds is a graph of the catalog
    /// `store`.
    pub open spec fn is_current(&self, store: Store) -> bool {
        forall|bucket: u8| #[trigger]
            self.graphs().contains_key(bucket) ==> is_graph_of(
                store,
                bucket,
                self.graphs()[bucket],
            )
    }

    /// A cache that keeps a graph for `ttl_secs` seconds, and holds none
    /// yet; none where `ttl_secs` is zero, for a cache cannot keep a graph
    /// for no time.
    pub fn new(ttl_secs: u64) -> (r: Option<GraphCache>)
        ensures
            r is Some <==> ttl_secs != 0,
            r matches Some(c) ==> c.graphs() == no_graphs(),
    {
        match new_cache(ttl_secs) {
            Some(inner) => Some(GraphCache { inner }),
            None => None,
        }
    }

    /// The graph of the bucket `bucket`: the one that the cache holds, where
    /// it holds one whose time is not up, else a new one, which the cache
    /// then holds. Either way the cache holds the graph that is handed out
    /// for the bucket afterwards, and what it holds for other buckets is
    /// what it held.
    pub fn graph_for(&mut self, store: &Store, bucket: u8) -> (r: GraphInfo)
        requires
            store.wf(),
            old(self).is_current(*store),
        ensures
            is_graph_of(*store, bucket, r),
            final(self).is_current(*store),
            final(self).graphs().contains_key(bucket),
            same_graph(final(self).graphs()[bucket], r),
            forall|b: u8|
                b != bucket && #[trigger] final(self).graphs().contains_key(b) ==> old(
                    self,
                ).graphs().contains_key(b) && final(self).graphs()[b] == old(self).graphs()[b],
    {
        match cache_get(&mut self.inner, bucket) {
            Some(found) => {
                proof {
                    lemma_same_graph(*store, bucket, old(self).graphs()[bucket], found);
                }
                found
            },
            None => {
                let graph = get_graph_data(store, &bucket);
                let kept = copy_graph(&graph);
                proof {
                    lemma_same_graph(*store, bucket, graph, kept);
                }
                let ghost swept = self.graphs();
                cache_set(&mut self.inner, bucket, kept);
                proof {
                    assert forall|b: u8| #[trigger]
                        self.graphs().contains_key(b) implies is_graph_of(
                        *store,
                        b,
                        self.graphs()[b],
                    ) by {
                        if b != bucket {
                            assert(swept.contains_key(b));
                            assert(old(self).graphs().contains_key(b));
                        }
                    }
                }
                graph
            },
        }
    }

    /// Forgets every graph: what the catalog's writers call, so that no
    /// reader is handed the graph of a catalog that is no more.
    pub fn invalidate(&mut self)
        ensures
            final(self).graphs() == no_graphs(),
    {
        cache_clear(&mut self.inner);
    }
}

} // verus!
