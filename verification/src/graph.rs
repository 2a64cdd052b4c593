//! The in-memory graph store: nodes, edges, and the breadth-first traversal
//! primitive with combinable label filters.

use std::collections::VecDeque;
use vstd::prelude::*;

verus! {

broadcast use
    vstd::prelude::Seq::lemma_push_to_set_commute,
    vstd::seq_lib::seq_to_set_is_finite,
    vstd::set::group_set_axioms;

/// Node identifiers are 128-bit unsigned integers, allocated from the store's
/// monotonic `nonce`.
pub type NodeId = u128;

/// Four label sets: required / forbidden, for nodes / edges. An empty set
/// leaves that axis unconstrained.
#[derive(Debug, Clone)]
pub struct TraverseFilter {
    pub where_node_labels: Vec<String>,
    pub where_edge_labels: Vec<String>,
    pub where_not_node_labels: Vec<String>,
    pub where_not_edge_labels: Vec<String>,
}

/// A vertex of the graph. Nodes carry their attributes as ordered string
/// key/value pairs; `outgoing_edge_indices` holds positions into the store's
/// flat edge list.
#[derive(Debug, Clone)]
pub struct Node {
    pub id: NodeId,
    pub label: String,
    pub attributes: Vec<(String, String)>,
    pub outgoing_edge_indices: Vec<u32>,
}

/// A directed, labeled arc between two node ids.
#[derive(Debug, Clone)]
pub struct Edge {
    pub from: NodeId,
    pub to: NodeId,
    pub label: String,
}

/// The graph store: append-only node and edge lists, cached counts, and the
/// monotonic id allocator.
pub struct GraphStore {
    pub node_count: u64,
    pub edge_count: u64,
    pub nonce: NodeId,
    pub nodes: Vec<Node>,
    pub edges: Vec<Edge>,
}

/// Mathematical image of a `Node`: strings become character sequences.
pub ghost struct NodeModel {
    pub id: NodeId,
    pub label: Seq<char>,
    pub attributes: Seq<(Seq<char>, Seq<char>)>,
    pub outgoing_edge_indices: Seq<u32>,
}

/// Mathematical image of an `Edge`.
pub ghost struct EdgeModel {
    pub from: NodeId,
    pub to: NodeId,
    pub label: Seq<char>,
}

/// Mathematical image of a `GraphStore`.
pub ghost struct GraphModel {
    pub node_count: u64,
    pub edge_count: u64,
    pub nonce: NodeId,
    pub nodes: Seq<NodeModel>,
    pub edges: Seq<EdgeModel>,
}

/// Mathematical image of a `TraverseFilter`.
pub ghost struct FilterModel {
    pub node_labels: Seq<Seq<char>>,
    pub edge_labels: Seq<Seq<char>>,
    pub not_node_labels: Seq<Seq<char>>,
    pub not_edge_labels: Seq<Seq<char>>,
}

/// The view of a sequence of strings: each string as its character sequence.
pub open spec fn strs_view(s: Seq<String>) -> Seq<Seq<char>> {
    s.map_values(|x: String| x@)
}

/// The view of an attribute list: each key/value pair as character sequences.
pub open spec fn attrs_view(s: Seq<(String, String)>) -> Seq<(Seq<char>, Seq<char>)> {
    s.map_values(|p: (String, String)| (p.0@, p.1@))
}

impl View for Node {
    type V = NodeModel;

    open spec fn view(&self) -> NodeModel {
        NodeModel {
            id: self.id,
            label: self.label@,
            attributes: attrs_view(self.attributes@),
            outgoing_edge_indices: self.outgoing_edge_indices@,
        }
    }
}

impl View for Edge {
    type V = EdgeModel;

    open spec fn view(&self) -> EdgeModel {
        EdgeModel { from: self.from, to: self.to, label: self.label@ }
    }
}

impl View for GraphStore {
    type V = GraphModel;

    open spec fn view(&self) -> GraphModel {
        GraphModel {
            node_count: self.node_count,
            edge_count: self.edge_count,
            nonce: self.nonce,
            nodes: self.nodes@.map_values(|n: Node| n@),
            edges: self.edges@.map_values(|e: Edge| e@),
        }
    }
}

impl View for TraverseFilter {
    type V = FilterModel;

    open spec fn view(&self) -> FilterModel {
        FilterModel {
            node_labels: strs_view(self.where_node_labels@),
            edge_labels: strs_view(self.where_edge_labels@),
            not_node_labels: strs_view(self.where_not_node_labels@),
            not_edge_labels: strs_view(self.where_not_edge_labels@),
        }
    }
}

impl GraphModel {
    /// Store invariant: counts cache the list lengths, node ids are unique and
    /// below the allocator's `nonce`, every stored edge index points into the
    /// edge list at an edge leaving its owner, and the edge list is short
    /// enough for indices to be representable as `u32`.
    pub open spec fn wf(self) -> bool {
        &&& self.node_count == self.nodes.len()
        &&& self.edge_count == self.edges.len()
        &&& self.edges.len() <= u32::MAX
        &&& forall|i: int, j: int|
            0 <= i < j < self.nodes.len() ==> self.nodes[i].id != self.nodes[j].id
        &&& forall|i: int| 0 <= i < self.nodes.len() ==> #[trigger] self.nodes[i].id < self.nonce
        &&& forall|i: int, k: int|
            0 <= i < self.nodes.len() && 0 <= k < self.nodes[i].outgoing_edge_indices.len()
                ==> #[trigger] self.nodes[i].outgoing_edge_indices[k] < self.edges.len()
                && self.edges[self.nodes[i].outgoing_edge_indices[k] as int].from
                == self.nodes[i].id
    }
}

/// The first node of `nodes` whose id is `id`, if any.
pub open spec fn find_node_in(nodes: Seq<NodeModel>, id: NodeId) -> Option<NodeModel>
    decreases nodes.len(),
{
    if nodes.len() == 0 {
        None
    } else if nodes[0].id == id {
        Some(nodes[0])
    } else {
        find_node_in(nodes.drop_first(), id)
    }
}

/// Lookup by id in a graph model.
pub open spec fn spec_get_node(g: GraphModel, id: NodeId) -> Option<NodeModel> {
    find_node_in(g.nodes, id)
}

/// The position of the first node of `nodes` whose id is `id`, if any.
pub open spec fn find_index_in(nodes: Seq<NodeModel>, id: NodeId) -> Option<int>
    decreases nodes.len(),
{
    if nodes.len() == 0 {
        None
    } else if nodes[0].id == id {
        Some(0)
    } else {
        match find_index_in(nodes.drop_first(), id) {
            Some(i) => Some(i + 1),
            None => None,
        }
    }
}

/// The ids of the stored nodes, in store order.
pub open spec fn node_ids(g: GraphModel) -> Seq<NodeId> {
    g.nodes.map_values(|n: NodeModel| n.id)
}

/// A position carrying `id` with no earlier occurrence is the position
/// `find_index_in` names.
pub proof fn lemma_find_index_unique(nodes: Seq<NodeModel>, id: NodeId, i: int)
    requires
        0 <= i < nodes.len(),
        nodes[i].id == id,
        forall|j: int| 0 <= j < i ==> nodes[j].id != id,
    ensures
        find_index_in(nodes, id) == Some(i),
    decreases nodes.len(),
{
    if i == 0 {
    } else {
        let rest = nodes.drop_first();
        assert(forall|j: int| 0 <= j < rest.len() ==> rest[j] == nodes[j + 1]);
        lemma_find_index_unique(rest, id, i - 1);
    }
}

/// `find_index_in` names the position of the node that `find_node_in`
/// returns: the first position carrying `id`.
pub proof fn lemma_find_index_in(nodes: Seq<NodeModel>, id: NodeId)
    ensures
        match find_index_in(nodes, id) {
            Some(i) => {
                &&& 0 <= i < nodes.len()
                &&& nodes[i].id == id
                &&& forall|j: int| 0 <= j < i ==> nodes[j].id != id
                &&& find_node_in(nodes, id) == Some(nodes[i])
            },
            None => find_node_in(nodes, id) is None,
        },
    decreases nodes.len(),
{
    if nodes.len() == 0 {
    } else if nodes[0].id == id {
    } else {
        let rest = nodes.drop_first();
        lemma_find_index_in(rest, id);
        match find_index_in(rest, id) {
            Some(i) => {
                assert(nodes[i + 1] == rest[i]);
                assert forall|j: int| 0 <= j < i + 1 implies nodes[j].id != id by {
                    if j > 0 {
                        assert(rest[j - 1] == nodes[j]);
                    }
                }
            },
            None => {},
        }
    }
}

proof fn lemma_find_node_skip(nodes: Seq<NodeModel>, id: NodeId, i: int)
    requires
        0 <= i < nodes.len(),
        nodes[i].id != id,
        find_node_in(nodes.skip(i), id) == find_node_in(nodes, id),
    ensures
        find_node_in(nodes.skip(i + 1), id) == find_node_in(nodes, id),
{
    assert(nodes.skip(i).len() > 0);
    assert(nodes.skip(i)[0] == nodes[i]);
    assert(nodes.skip(i).drop_first() =~= nodes.skip(i + 1));
}

proof fn lemma_find_node_found(nodes: Seq<NodeModel>, id: NodeId, i: int)
    requires
        0 <= i < nodes.len(),
        nodes[i].id == id,
        find_node_in(nodes.skip(i), id) == find_node_in(nodes, id),
    ensures
        find_node_in(nodes, id) == Some(nodes[i]),
{
    assert(nodes.skip(i).len() > 0);
    assert(nodes.skip(i)[0] == nodes[i]);
}

/// Whether `label` satisfies the node-label sides of the filter: it must be a
/// member of `node_labels` when that set is non-empty, and must not be a
/// member of `not_node_labels` when that set is non-empty.
pub open spec fn node_passes(f: FilterModel, label: Seq<char>) -> bool {
    &&& (f.node_labels.len() == 0 || f.node_labels.contains(label))
    &&& !(f.not_node_labels.len() > 0 && f.not_node_labels.contains(label))
}

/// Whether `label` satisfies the edge-label sides of the filter.
pub open spec fn edge_passes(f: FilterModel, label: Seq<char>) -> bool {
    &&& (f.edge_labels.len() == 0 || f.edge_labels.contains(label))
    &&& !(f.not_edge_labels.len() > 0 && f.not_edge_labels.contains(label))
}

/// With empty edge-label sets a traversal walks no edge at all: it only
/// filters the start set.
pub open spec fn walks_edges(f: FilterModel) -> bool {
    f.edge_labels.len() > 0 || f.not_edge_labels.len() > 0
}

/// Whether a result of length `len` has reached the optional `limit`.
pub open spec fn limit_hit(limit: Option<usize>, len: nat) -> bool {
    match limit {
        Some(k) => len >= k,
        None => false,
    }
}

/// Intermediate state of a traversal: the ids already seen, the ids queued
/// for expansion, the emitted ids in discovery order, and whether the
/// traversal has stopped early on reaching its limit.
pub ghost struct Bfs {
    pub visited: Set<NodeId>,
    pub queue: Seq<NodeId>,
    pub result: Seq<NodeId>,
    pub done: bool,
}

/// The state a traversal starts from.
pub open spec fn start_state() -> Bfs {
    Bfs { visited: Set::empty(), queue: Seq::empty(), result: Seq::empty(), done: false }
}

/// Handle a single start id: an id with no stored node is ignored; one with a
/// node is marked visited and queued, and emitted if its label passes the
/// node predicate. Start ids are not deduplicated.
pub open spec fn seed_one(g: GraphModel, f: FilterModel, id: NodeId, st: Bfs) -> Bfs {
    match find_node_in(g.nodes, id) {
        Some(n) => Bfs {
            visited: st.visited.insert(id),
            queue: st.queue.push(id),
            result: if node_passes(f, n.label) {
                st.result.push(id)
            } else {
                st.result
            },
            done: st.done,
        },
        None => st,
    }
}

/// Handle all start ids, in input order.
pub open spec fn seed_starts(g: GraphModel, f: FilterModel, starts: Seq<NodeId>, st: Bfs) -> Bfs
    decreases starts.len(),
{
    if starts.len() == 0 {
        st
    } else {
        seed_starts(g, f, starts.drop_first(), seed_one(g, f, starts[0], st))
    }
}

/// Walk one outgoing edge index of the node being expanded. An index outside
/// the edge list, a rejected edge label, or an already-visited target leaves
/// the state unchanged. A fresh target is marked visited; if it resolves to a
/// node whose label passes, it is emitted, and the traversal either stops
/// (limit reached by this emission) or queues the target for expansion.
pub open spec fn expand_one(g: GraphModel, f: FilterModel, limit: Option<usize>, ei: u32, st: Bfs) -> Bfs {
    if ei >= g.edges.len() {
        st
    } else {
        let e = g.edges[ei as int];
        if !edge_passes(f, e.label) {
            st
        } else if st.visited.contains(e.to) {
            st
        } else {
            let v2 = st.visited.insert(e.to);
            match find_node_in(g.nodes, e.to) {
                None => Bfs { visited: v2, queue: st.queue, result: st.result, done: st.done },
                Some(n) => {
                    if node_passes(f, n.label) {
                        let r2 = st.result.push(e.to);
                        if limit_hit(limit, r2.len()) {
                            Bfs { visited: v2, queue: st.queue, result: r2, done: true }
                        } else {
                            Bfs { visited: v2, queue: st.queue.push(e.to), result: r2, done: false }
                        }
                    } else {
                        Bfs { visited: v2, queue: st.queue, result: st.result, done: st.done }
                    }
                }
            }
        }
    }
}

/// Walk a node's outgoing edge indices in storage order, stopping as soon as
/// the limit is reached.
pub open spec fn expand_edges(
    g: GraphModel,
    f: FilterModel,
    limit: Option<usize>,
    eidxs: Seq<u32>,
    st: Bfs,
) -> Bfs
    decreases eidxs.len(),
{
    if st.done || eidxs.len() == 0 {
        st
    } else {
        expand_edges(g, f, limit, eidxs.drop_first(), expand_one(g, f, limit, eidxs[0], st))
    }
}

/// The set of ids carried by the graph's nodes.
pub open spec fn graph_ids(g: GraphModel) -> Set<NodeId> {
    g.nodes.map_values(|n: NodeModel| n.id).to_set()
}

/// Termination measure of the traversal loop: every enqueue is paid for by a
/// graph node id newly marked visited.
pub open spec fn bfs_measure(g: GraphModel, st: Bfs) -> int {
    2 * graph_ids(g).difference(st.visited).len() + st.queue.len() as int
}

proof fn lemma_find_node_is_graph_id(nodes: Seq<NodeModel>, id: NodeId)
    requires
        find_node_in(nodes, id) is Some,
    ensures
        nodes.map_values(|n: NodeModel| n.id).to_set().contains(id),
    decreases nodes.len(),
{
    let ids = nodes.map_values(|n: NodeModel| n.id);
    if nodes.len() == 0 {
    } else if nodes[0].id == id {
        assert(ids[0] == id);
        assert(ids.contains(id));
    } else {
        lemma_find_node_is_graph_id(nodes.drop_first(), id);
        let dids = nodes.drop_first().map_values(|n: NodeModel| n.id);
        let i = choose|i: int| 0 <= i < dids.len() && dids[i] == id;
        assert(ids[i + 1] == id);
        assert(ids.contains(id));
    }
}

proof fn lemma_expand_one_measure(g: GraphModel, f: FilterModel, limit: Option<usize>, ei: u32, st: Bfs)
    ensures
        bfs_measure(g, expand_one(g, f, limit, ei, st)) <= bfs_measure(g, st),
{
    let st2 = expand_one(g, f, limit, ei, st);
    vstd::set_lib::lemma_set_subset_finite(
        graph_ids(g),
        graph_ids(g).difference(st.visited),
    );
    if st2 != st {
        let e = g.edges[ei as int];
        assert(!st.visited.contains(e.to));
        if graph_ids(g).contains(e.to) {
            graph_ids(g).lemma_set_insert_diff_decreases(st.visited, e.to);
        } else {
            assert(graph_ids(g).difference(st.visited.insert(e.to))
                =~= graph_ids(g).difference(st.visited));
        }
        vstd::set_lib::lemma_len_subset(
            graph_ids(g).difference(st.visited.insert(e.to)),
            graph_ids(g).difference(st.visited),
        );
        if st2.queue.len() > st.queue.len() {
            assert(find_node_in(g.nodes, e.to) is Some);
            lemma_find_node_is_graph_id(g.nodes, e.to);
            assert(graph_ids(g).contains(e.to));
        }
    }
}

proof fn lemma_expand_edges_measure(
    g: GraphModel,
    f: FilterModel,
    limit: Option<usize>,
    eidxs: Seq<u32>,
    st: Bfs,
)
    ensures
        bfs_measure(g, expand_edges(g, f, limit, eidxs, st)) <= bfs_measure(g, st),
    decreases eidxs.len(),
{
    if st.done || eidxs.len() == 0 {
    } else {
        lemma_expand_one_measure(g, f, limit, eidxs[0], st);
        lemma_expand_edges_measure(g, f, limit, eidxs.drop_first(), expand_one(g, f, limit, eidxs[0], st));
    }
}

/// The breadth-first loop: dequeue a node, stop on an exhausted queue or a
/// reached limit, expand the node's outgoing edges, and continue.
pub open spec fn bfs_loop(g: GraphModel, f: FilterModel, limit: Option<usize>, st: Bfs) -> Seq<NodeId>
    decreases bfs_measure(g, st),
    via bfs_loop_decreases
{
    if st.queue.len() == 0 {
        st.result
    } else if limit_hit(limit, st.result.len()) {
        st.result
    } else {
        let cur = st.queue[0];
        let popped = Bfs {
            visited: st.visited,
            queue: st.queue.drop_first(),
            result: st.result,
            done: false,
        };
        match find_node_in(g.nodes, cur) {
            None => bfs_loop(g, f, limit, popped),
            Some(n) => {
                let ex = expand_edges(g, f, limit, n.outgoing_edge_indices, popped);
                if ex.done {
                    ex.result
                } else {
                    bfs_loop(g, f, limit, ex)
                }
            },
        }
    }
}

#[via_fn]
proof fn bfs_loop_decreases(g: GraphModel, f: FilterModel, limit: Option<usize>, st: Bfs) {
    if st.queue.len() > 0 && !limit_hit(limit, st.result.len()) {
        let cur = st.queue[0];
        let popped = Bfs {
            visited: st.visited,
            queue: st.queue.drop_first(),
            result: st.result,
            done: false,
        };
        match find_node_in(g.nodes, cur) {
            None => {},
            Some(n) => {
                lemma_expand_edges_measure(g, f, limit, n.outgoing_edge_indices, popped);
            },
        }
    }
}

/// The whole traversal: seed from the start ids, then — only when an edge
/// filter is present — run the breadth-first loop.
pub open spec fn traverse_spec(
    g: GraphModel,
    starts: Seq<NodeId>,
    f: FilterModel,
    limit: Option<usize>,
) -> Seq<NodeId> {
    let st = seed_starts(g, f, starts, start_state());
    if walks_edges(f) {
        bfs_loop(g, f, limit, st)
    } else {
        st.result
    }
}

/// Whether a traversal started at `id` keeps it: the id resolves to a stored
/// node whose label passes the node predicate.
pub open spec fn start_kept(g: GraphModel, f: FilterModel, id: NodeId) -> bool {
    match find_node_in(g.nodes, id) {
        Some(n) => node_passes(f, n.label),
        None => false,
    }
}

/// The ids that seeding emits for `starts`, in input order.
pub open spec fn seed_delta(g: GraphModel, f: FilterModel, starts: Seq<NodeId>) -> Seq<NodeId>
    decreases starts.len(),
{
    if starts.len() == 0 {
        Seq::empty()
    } else {
        (if start_kept(g, f, starts[0]) {
            seq![starts[0]]
        } else {
            Seq::empty()
        }) + seed_delta(g, f, starts.drop_first())
    }
}

pub proof fn lemma_seed_result(g: GraphModel, f: FilterModel, starts: Seq<NodeId>, st: Bfs)
    ensures
        seed_starts(g, f, starts, st).result == st.result + seed_delta(g, f, starts),
    decreases starts.len(),
{
    if starts.len() == 0 {
        assert(st.result + Seq::<NodeId>::empty() =~= st.result);
    } else {
        let st1 = seed_one(g, f, starts[0], st);
        lemma_seed_result(g, f, starts.drop_first(), st1);
        assert(st1.result + seed_delta(g, f, starts.drop_first()) =~= st.result + seed_delta(
            g,
            f,
            starts,
        ));
    }
}

proof fn lemma_seed_delta_kept(g: GraphModel, f: FilterModel, starts: Seq<NodeId>)
    ensures
        forall|j: int|
            0 <= j < seed_delta(g, f, starts).len() ==> start_kept(
                g,
                f,
                #[trigger] seed_delta(g, f, starts)[j],
            ),
    decreases starts.len(),
{
    if starts.len() == 0 {
    } else {
        lemma_seed_delta_kept(g, f, starts.drop_first());
        let d = seed_delta(g, f, starts);
        let dr = seed_delta(g, f, starts.drop_first());
        let head = if start_kept(g, f, starts[0]) {
            seq![starts[0]]
        } else {
            Seq::<NodeId>::empty()
        };
        assert(d == head + dr);
        assert forall|j: int| 0 <= j < d.len() implies start_kept(g, f, d[j]) by {
            if j < head.len() {
                assert(d[j] == starts[0]);
            } else {
                assert(d[j] == dr[j - head.len()]);
            }
        }
    }
}

proof fn lemma_seed_delta_all_kept(g: GraphModel, f: FilterModel, starts: Seq<NodeId>)
    requires
        forall|i: int| 0 <= i < starts.len() ==> start_kept(g, f, #[trigger] starts[i]),
    ensures
        seed_delta(g, f, starts) == starts,
    decreases starts.len(),
{
    if starts.len() == 0 {
        assert(seed_delta(g, f, starts) =~= starts);
    } else {
        assert(forall|i: int|
            0 <= i < starts.drop_first().len() ==> #[trigger] starts.drop_first()[i] == starts[
                i + 1
            ]);
        lemma_seed_delta_all_kept(g, f, starts.drop_first());
        assert(seed_delta(g, f, starts) =~= starts);
    }
}

/// A traversal with empty edge-label sets only filters its start set, and
/// that filtering is idempotent: every id it keeps resolves to a node whose
/// label passes, so feeding the output back in returns it unchanged,
/// whatever the limits are.
pub proof fn lemma_label_filter_idempotent(
    g: GraphModel,
    starts: Seq<NodeId>,
    f: FilterModel,
    limit1: Option<usize>,
    limit2: Option<usize>,
)
    requires
        !walks_edges(f),
    ensures
        traverse_spec(g, traverse_spec(g, starts, f, limit1), f, limit2) == traverse_spec(
            g,
            starts,
            f,
            limit1,
        ),
{
    let r1 = traverse_spec(g, starts, f, limit1);
    lemma_seed_result(g, f, starts, start_state());
    assert(r1 =~= seed_delta(g, f, starts));
    lemma_seed_delta_kept(g, f, starts);
    lemma_seed_delta_all_kept(g, f, r1);
    lemma_seed_result(g, f, r1, start_state());
    assert(traverse_spec(g, r1, f, limit2) =~= r1);
}

proof fn lemma_push_no_dup(s: Seq<NodeId>, x: NodeId)
    requires
        s.no_duplicates(),
        !s.contains(x),
    ensures
        s.push(x).no_duplicates(),
{
    let p = s.push(x);
    assert forall|i: int, j: int|
        0 <= i < p.len() && 0 <= j < p.len() && i != j implies p[i] != p[j] by {
        if i < s.len() && j < s.len() {
        } else if i == s.len() && j < s.len() {
            assert(s.contains(s[j]));
        } else if j == s.len() && i < s.len() {
            assert(s.contains(s[i]));
        }
    }
}

/// Result ids are always ids the traversal has marked visited, and distinct.
pub open spec fn emits_fresh(st: Bfs) -> bool {
    &&& st.result.no_duplicates()
    &&& forall|j: int| 0 <= j < st.result.len() ==> st.visited.contains(#[trigger] st.result[j])
}

proof fn lemma_seed_no_dup(g: GraphModel, f: FilterModel, starts: Seq<NodeId>, st: Bfs)
    requires
        emits_fresh(st),
        starts.no_duplicates(),
        forall|i: int| 0 <= i < starts.len() ==> !st.result.contains(#[trigger] starts[i]),
    ensures
        emits_fresh(seed_starts(g, f, starts, st)),
        st.visited.subset_of(seed_starts(g, f, starts, st).visited),
        forall|id: NodeId|
            seed_starts(g, f, starts, st).result.contains(id) ==> st.result.contains(id)
                || starts.contains(id),
    decreases starts.len(),
{
    if starts.len() == 0 {
    } else {
        let id0 = starts[0];
        let st1 = seed_one(g, f, id0, st);
        assert(emits_fresh(st1)) by {
            if st1 != st && node_passes(f, find_node_in(g.nodes, id0).unwrap().label) {
                lemma_push_no_dup(st.result, id0);
            }
        }
        let rest = starts.drop_first();
        assert(forall|i: int|
            0 <= i < rest.len() ==> #[trigger] rest[i] == starts[i + 1]);
        assert(forall|i: int| 0 <= i < rest.len() ==> !st1.result.contains(#[trigger] rest[i]))
            by {
            assert forall|i: int| 0 <= i < rest.len() implies !st1.result.contains(rest[i]) by {
                assert(rest[i] == starts[i + 1]);
                assert(rest[i] != id0);
                if st1.result.contains(rest[i]) && st1.result != st.result {
                    let j = choose|j: int|
                        0 <= j < st1.result.len() && st1.result[j] == rest[i];
                    assert(st1.result[st1.result.len() - 1] == id0);
                    assert(j < st.result.len());
                    assert(st.result.contains(rest[i]));
                }
            }
        }
        lemma_seed_no_dup(g, f, rest, st1);
        assert forall|id: NodeId|
            seed_starts(g, f, starts, st).result.contains(id) implies st.result.contains(id)
            || starts.contains(id) by {
            if st1.result.contains(id) {
                if st1.result != st.result && id == id0 {
                    assert(starts.contains(id));
                } else if !st.result.contains(id) {
                    let j = choose|j: int|
                        0 <= j < st1.result.len() && st1.result[j] == id;
                    assert(j < st.result.len() || st1.result[j] == id0);
                    assert(starts.contains(id));
                }
            } else {
                assert(rest.contains(id) ==> starts.contains(id)) by {
                    if rest.contains(id) {
                        let j = choose|j: int| 0 <= j < rest.len() && rest[j] == id;
                        assert(starts[j + 1] == id);
                    }
                }
            }
        }
    }
}

proof fn lemma_expand_no_dup(
    g: GraphModel,
    f: FilterModel,
    limit: Option<usize>,
    eidxs: Seq<u32>,
    st: Bfs,
)
    requires
        emits_fresh(st),
    ensures
        emits_fresh(expand_edges(g, f, limit, eidxs, st)),
        st.visited.subset_of(expand_edges(g, f, limit, eidxs, st).visited),
    decreases eidxs.len(),
{
    if st.done || eidxs.len() == 0 {
    } else {
        let st1 = expand_one(g, f, limit, eidxs[0], st);
        assert(emits_fresh(st1) && st.visited.subset_of(st1.visited)) by {
            if st1 != st && st1.result != st.result {
                let target = g.edges[eidxs[0] as int].to;
                assert(!st.visited.contains(target));
                assert(!st.result.contains(target));
                lemma_push_no_dup(st.result, target);
            }
        }
        lemma_expand_no_dup(g, f, limit, eidxs.drop_first(), st1);
    }
}

proof fn lemma_bfs_no_dup(g: GraphModel, f: FilterModel, limit: Option<usize>, st: Bfs)
    requires
        emits_fresh(st),
    ensures
        bfs_loop(g, f, limit, st).no_duplicates(),
    decreases bfs_measure(g, st),
{
    if st.queue.len() == 0 || limit_hit(limit, st.result.len()) {
    } else {
        let cur = st.queue[0];
        let popped = Bfs {
            visited: st.visited,
            queue: st.queue.drop_first(),
            result: st.result,
            done: false,
        };
        match find_node_in(g.nodes, cur) {
            None => {
                lemma_bfs_no_dup(g, f, limit, popped);
            },
            Some(n) => {
                let ex = expand_edges(g, f, limit, n.outgoing_edge_indices, popped);
                lemma_expand_no_dup(g, f, limit, n.outgoing_edge_indices, popped);
                if ex.done {
                } else {
                    lemma_expand_edges_measure(g, f, limit, n.outgoing_edge_indices, popped);
                    lemma_bfs_no_dup(g, f, limit, ex);
                }
            },
        }
    }
}

/// A traversal never emits the same node twice over edges: the visited set
/// makes every cycle safe. Provided the start ids themselves are distinct,
/// the whole result is free of duplicates, whatever the graph, the filter
/// and the limit.
pub proof fn lemma_traverse_no_duplicates(
    g: GraphModel,
    starts: Seq<NodeId>,
    f: FilterModel,
    limit: Option<usize>,
)
    requires
        starts.no_duplicates(),
    ensures
        traverse_spec(g, starts, f, limit).no_duplicates(),
{
    assert(emits_fresh(start_state()));
    lemma_seed_no_dup(g, f, starts, start_state());
    let seeded = seed_starts(g, f, starts, start_state());
    if walks_edges(f) {
        lemma_bfs_no_dup(g, f, limit, seeded);
    }
}

proof fn lemma_seed_len(g: GraphModel, f: FilterModel, starts: Seq<NodeId>, st: Bfs)
    ensures
        seed_starts(g, f, starts, st).result.len() <= st.result.len() + starts.len(),
    decreases starts.len(),
{
    if starts.len() == 0 {
    } else {
        lemma_seed_len(g, f, starts.drop_first(), seed_one(g, f, starts[0], st));
    }
}

proof fn lemma_expand_limit(
    g: GraphModel,
    f: FilterModel,
    k: usize,
    eidxs: Seq<u32>,
    st: Bfs,
)
    requires
        !st.done,
        st.result.len() < k,
    ensures
        expand_edges(g, f, Some(k), eidxs, st).done ==> expand_edges(
            g,
            f,
            Some(k),
            eidxs,
            st,
        ).result.len() <= k,
        !expand_edges(g, f, Some(k), eidxs, st).done ==> expand_edges(
            g,
            f,
            Some(k),
            eidxs,
            st,
        ).result.len() < k,
    decreases eidxs.len(),
{
    if eidxs.len() == 0 {
    } else {
        let st1 = expand_one(g, f, Some(k), eidxs[0], st);
        if st1.done {
            assert(expand_edges(g, f, Some(k), eidxs.drop_first(), st1) == st1);
        } else {
            lemma_expand_limit(g, f, k, eidxs.drop_first(), st1);
        }
    }
}

proof fn lemma_bfs_limit(g: GraphModel, f: FilterModel, k: usize, st: Bfs)
    requires
        st.result.len() <= k,
    ensures
        bfs_loop(g, f, Some(k), st).len() <= k,
    decreases bfs_measure(g, st),
{
    if st.queue.len() == 0 || limit_hit(Some(k), st.result.len()) {
    } else {
        let cur = st.queue[0];
        let popped = Bfs {
            visited: st.visited,
            queue: st.queue.drop_first(),
            result: st.result,
            done: false,
        };
        match find_node_in(g.nodes, cur) {
            None => {
                lemma_bfs_limit(g, f, k, popped);
            },
            Some(n) => {
                let ex = expand_edges(g, f, Some(k), n.outgoing_edge_indices, popped);
                lemma_expand_limit(g, f, k, n.outgoing_edge_indices, popped);
                if ex.done {
                } else {
                    lemma_expand_edges_measure(g, f, Some(k), n.outgoing_edge_indices, popped);
                    lemma_bfs_limit(g, f, k, ex);
                }
            },
        }
    }
}

/// With `limit = Some(k)` and at most `k` start ids, a traversal emits at
/// most `k` ids. (The seeding step never consults the limit, so a start set
/// larger than `k` can by itself push the result past the limit; past the
/// seeds, the breadth-first loop re-checks the limit after every emission.)
pub proof fn lemma_traverse_limit_bound(
    g: GraphModel,
    starts: Seq<NodeId>,
    f: FilterModel,
    k: usize,
)
    requires
        starts.len() <= k,
    ensures
        traverse_spec(g, starts, f, Some(k)).len() <= k,
{
    lemma_seed_len(g, f, starts, start_state());
    let seeded = seed_starts(g, f, starts, start_state());
    if walks_edges(f) {
        lemma_bfs_limit(g, f, k, seeded);
    }
}

/// Linear membership scan over a label list.
fn labels_contain(labels: &Vec<String>, l: &String) -> (r: bool)
    ensures
        r == strs_view(labels@).contains(l@),
{
    let n = labels.len();
    for i in 0..n
        invariant
            n == labels.len(),
            forall|j: int| 0 <= j < i ==> strs_view(labels@)[j] != l@,
    {
        if labels[i].eq(l) {
            assert(strs_view(labels@)[i as int] == l@);
            return true;
        }
        assert(strs_view(labels@)[i as int] != l@);
    }
    false
}

/// Evaluate the node-label predicate pair of `filter` on `label`.
fn node_label_ok(filter: &TraverseFilter, label: &String) -> (r: bool)
    ensures
        r == node_passes(filter@, label@),
{
    let node_matches = if filter.where_node_labels.len() > 0 {
        labels_contain(&filter.where_node_labels, label)
    } else {
        true
    };
    let node_not_matches = if filter.where_not_node_labels.len() > 0 {
        labels_contain(&filter.where_not_node_labels, label)
    } else {
        false
    };
    node_matches && !node_not_matches
}

/// Evaluate the edge-label predicate pair of `filter` on `label`.
fn edge_label_ok(filter: &TraverseFilter, label: &String) -> (r: bool)
    ensures
        r == edge_passes(filter@, label@),
{
    let edge_matches = if filter.where_edge_labels.len() > 0 {
        labels_contain(&filter.where_edge_labels, label)
    } else {
        true
    };
    let edge_not_matches = if filter.where_not_edge_labels.len() > 0 {
        labels_contain(&filter.where_not_edge_labels, label)
    } else {
        false
    };
    edge_matches && !edge_not_matches
}

/// Linear membership scan over the visited-id list.
fn id_seen(visited: &Vec<NodeId>, id: NodeId) -> (r: bool)
    ensures
        r == visited@.contains(id),
{
    let n = visited.len();
    for i in 0..n
        invariant
            n == visited.len(),
            forall|j: int| 0 <= j < i ==> visited@[j] != id,
    {
        if visited[i] == id {
            return true;
        }
    }
    false
}

impl GraphStore {
    /// The first stored node carrying `id`, searched in store order.
    pub fn get_node_by_id(&self, id: NodeId) -> (r: Option<&Node>)
        ensures
            match r {
                Some(n) => spec_get_node(self@, id) == Some(n@),
                None => spec_get_node(self@, id) is None,
            },
    {
        let ghost gnodes = self@.nodes;
        proof {
            assert(gnodes.skip(0) =~= gnodes);
        }
        let n = self.nodes.len();
        for i in 0..n
            invariant
                n == self.nodes.len(),
                gnodes == self@.nodes,
                gnodes.len() == n,
                forall|j: int| 0 <= j < n ==> gnodes[j] == #[trigger] self.nodes@[j]@,
                find_node_in(gnodes.skip(i as int), id) == find_node_in(gnodes, id),
        {
            assert(gnodes.skip(i as int)[0] == gnodes[i as int]);
            if self.nodes[i].id == id {
                proof {
                    lemma_find_node_found(gnodes, id, i as int);
                }
                return Some(&self.nodes[i]);
            }
            proof {
                lemma_find_node_skip(gnodes, id, i as int);
            }
        }
        assert(gnodes.skip(n as int) =~= Seq::<NodeModel>::empty());
        None
    }

    /// Breadth-first traversal from `start_nodes` along outgoing edges, under
    /// the label filter and the optional result limit. With empty edge-label
    /// sets no edge is walked: the call only filters the start set. Emission
    /// order is discovery order; a node reached over edges is emitted at most
    /// once, while duplicated start ids are emitted per occurrence.
    pub fn traverse_out(
        &self,
        start_nodes: &[NodeId],
        filter: &TraverseFilter,
        limit: Option<usize>,
    ) -> (result: Vec<NodeId>)
        ensures
            result@ == traverse_spec(self@, start_nodes@, filter@, limit),
    {
        let mut result: Vec<NodeId> = Vec::new();
        let mut visited: Vec<NodeId> = Vec::new();
        let mut queue: VecDeque<NodeId> = VecDeque::new();

        proof {
            assert(Seq::<NodeId>::empty().to_set() =~= Set::<NodeId>::empty());
            assert(start_nodes@.skip(0) =~= start_nodes@);
        }

        let n = start_nodes.len();
        for i in 0..n
            invariant
                n == start_nodes@.len(),
                seed_starts(
                    self@,
                    filter@,
                    start_nodes@.skip(i as int),
                    Bfs {
                        visited: visited@.to_set(),
                        queue: queue@,
                        result: result@,
                        done: false,
                    },
                ) == seed_starts(self@, filter@, start_nodes@, start_state()),
        {
            let id = start_nodes[i];
            proof {
                assert(start_nodes@.skip(i as int)[0] == id);
                assert(start_nodes@.skip(i as int).drop_first() =~= start_nodes@.skip(
                    i as int + 1,
                ));
            }
            let ghost pre = Bfs {
                visited: visited@.to_set(),
                queue: queue@,
                result: result@,
                done: false,
            };
            match self.get_node_by_id(id) {
                Some(node) => {
                    if node_label_ok(filter, &node.label) {
                        result.push(id);
                    }
                    queue.push_back(id);
                    visited.push(id);
                    proof {
                        assert(visited@.to_set() =~= pre.visited.insert(id));
                        assert(Bfs {
                            visited: visited@.to_set(),
                            queue: queue@,
                            result: result@,
                            done: false,
                        } == seed_one(self@, filter@, id, pre));
                    }
                },
                None => {
                    proof {
                        assert(seed_one(self@, filter@, id, pre) == pre);
                    }
                },
            }
        }
        proof {
            assert(start_nodes@.skip(n as int) =~= Seq::<NodeId>::empty());
        }
        let ghost seeded = seed_starts(self@, filter@, start_nodes@, start_state());
        assert(Bfs { visited: visited@.to_set(), queue: queue@, result: result@, done: false }
            == seeded);

        let should_traverse = filter.where_edge_labels.len() > 0
            || filter.where_not_edge_labels.len() > 0;
        assert(should_traverse == walks_edges(filter@));

        if should_traverse {
            loop
                invariant_except_break
                    walks_edges(filter@),
                    seeded == seed_starts(self@, filter@, start_nodes@, start_state()),
                    bfs_loop(
                        self@,
                        filter@,
                        limit,
                        Bfs {
                            visited: visited@.to_set(),
                            queue: queue@,
                            result: result@,
                            done: false,
                        },
                    ) == bfs_loop(self@, filter@, limit, seeded),
                ensures
                    result@ == bfs_loop(self@, filter@, limit, seeded),
                decreases bfs_measure(
                    self@,
                    Bfs {
                        visited: visited@.to_set(),
                        queue: queue@,
                        result: result@,
                        done: false,
                    },
                ),
            {
                let ghost st = Bfs {
                    visited: visited@.to_set(),
                    queue: queue@,
                    result: result@,
                    done: false,
                };
                if queue.len() == 0 {
                    break;
                }
                if let Some(lim) = limit {
                    if result.len() >= lim {
                        break;
                    }
                }
                proof {
                    assert(!limit_hit(limit, st.result.len()));
                }
                let current_id = queue.pop_front().unwrap();
                let ghost popped = Bfs {
                    visited: st.visited,
                    queue: st.queue.drop_first(),
                    result: st.result,
                    done: false,
                };
                proof {
                    assert(queue@ =~= st.queue.drop_first());
                }
                match self.get_node_by_id(current_id) {
                    None => {
                        proof {
                            assert(bfs_loop(self@, filter@, limit, st) == bfs_loop(
                                self@,
                                filter@,
                                limit,
                                popped,
                            ));
                        }
                    },
                    Some(current_node) => {
                        let ghost eidxs = current_node@.outgoing_edge_indices;
                        proof {
                            assert(eidxs.skip(0) =~= eidxs);
                        }
                        let m = current_node.outgoing_edge_indices.len();
                        for k in 0..m
                            invariant
                                m == eidxs.len(),
                                eidxs == current_node@.outgoing_edge_indices,
                                forall|j: int|
                                    0 <= j < m ==> eidxs[j]
                                        == #[trigger] current_node.outgoing_edge_indices@[j],
                                expand_edges(
                                    self@,
                                    filter@,
                                    limit,
                                    eidxs.skip(k as int),
                                    Bfs {
                                        visited: visited@.to_set(),
                                        queue: queue@,
                                        result: result@,
                                        done: false,
                                    },
                                ) == expand_edges(self@, filter@, limit, eidxs, popped),
                                bfs_loop(self@, filter@, limit, seeded) == bfs_loop(
                                    self@,
                                    filter@,
                                    limit,
                                    st,
                                ),
                                st.queue.len() > 0,
                                !limit_hit(limit, st.result.len()),
                                st.queue[0] == current_id,
                                popped == (Bfs {
                                    visited: st.visited,
                                    queue: st.queue.drop_first(),
                                    result: st.result,
                                    done: false,
                                }),
                                find_node_in(self@.nodes, current_id) == Some(current_node@),
                                walks_edges(filter@),
                                seeded == seed_starts(self@, filter@, start_nodes@, start_state()),
                        {
                            let ghost pre = Bfs {
                                visited: visited@.to_set(),
                                queue: queue@,
                                result: result@,
                                done: false,
                            };
                            proof {
                                assert(eidxs.skip(k as int)[0] == eidxs[k as int]);
                                assert(eidxs.skip(k as int).drop_first() =~= eidxs.skip(
                                    k as int + 1,
                                ));
                            }
                            let edge_index = current_node.outgoing_edge_indices[k];
                            if (edge_index as usize) < self.edges.len() {
                                let edge = &self.edges[edge_index as usize];
                                assert(edge@ == self@.edges[edge_index as int]);
                                if edge_label_ok(filter, &edge.label) {
                                    let target_id = edge.to;
                                    if !id_seen(&visited, target_id) {
                                        visited.push(target_id);
                                        proof {
                                            assert(visited@.to_set() =~= pre.visited.insert(
                                                target_id,
                                            ));
                                        }
                                        match self.get_node_by_id(target_id) {
                                            Some(target_node) => {
                                                if node_label_ok(filter, &target_node.label) {
                                                    result.push(target_id);
                                                    let mut hit = false;
                                                    if let Some(lim) = limit {
                                                        if result.len() >= lim {
                                                            hit = true;
                                                        }
                                                    }
                                                    if hit {
                                                        proof {
                                                            let stopped = expand_one(
                                                                self@,
                                                                filter@,
                                                                limit,
                                                                eidxs[k as int],
                                                                pre,
                                                            );
                                                            assert(stopped.done);
                                                            assert(stopped.result == result@);
                                                            assert(expand_edges(
                                                                self@,
                                                                filter@,
                                                                limit,
                                                                eidxs.skip(k as int).drop_first(),
                                                                stopped,
                                                            ) == stopped);
                                                            assert(bfs_loop(
                                                                self@,
                                                                filter@,
                                                                limit,
                                                                st,
                                                            ) == result@);
                                                            assert(traverse_spec(
                                                                self@,
                                                                start_nodes@,
                                                                filter@,
                                                                limit,
                                                            ) == bfs_loop(
                                                                self@,
                                                                filter@,
                                                                limit,
                                                                seeded,
                                                            ));
                                                        }
                                                        return result;
                                                    }
                                                    queue.push_back(target_id);
                                                }
                                            },
                                            None => {},
                                        }
                                    }
                                }
                            }
                            proof {
                                assert(Bfs {
                                    visited: visited@.to_set(),
                                    queue: queue@,
                                    result: result@,
                                    done: false,
                                } == expand_one(self@, filter@, limit, eidxs[k as int], pre));
                            }
                        }
                        proof {
                            assert(eidxs.skip(m as int) =~= Seq::<u32>::empty());
                            let ex = expand_edges(self@, filter@, limit, eidxs, popped);
                            assert(ex == Bfs {
                                visited: visited@.to_set(),
                                queue: queue@,
                                result: result@,
                                done: false,
                            });
                            assert(!ex.done);
                            assert(bfs_loop(self@, filter@, limit, st) == bfs_loop(
                                self@,
                                filter@,
                                limit,
                                ex,
                            ));
                            lemma_expand_edges_measure(self@, filter@, limit, eidxs, popped);
                        }
                    },
                }
            }
            proof {
                assert(traverse_spec(self@, start_nodes@, filter@, limit) == bfs_loop(
                    self@,
                    filter@,
                    limit,
                    seeded,
                ));
            }
        } else {
            proof {
                assert(traverse_spec(self@, start_nodes@, filter@, limit) == seeded.result);
            }
        }
        result
    }
}


/// The ids of the nodes carrying `label`, in store order.
pub open spec fn ids_with_label_in(nodes: Seq<NodeModel>, label: Seq<char>) -> Seq<NodeId>
    decreases nodes.len(),
{
    if nodes.len() == 0 {
        Seq::empty()
    } else {
        (if nodes[0].label == label {
            seq![nodes[0].id]
        } else {
            Seq::empty()
        }) + ids_with_label_in(nodes.drop_first(), label)
    }
}

/// The ids of the stored nodes whose label is `label`, in store order.
pub open spec fn ids_with_label(g: GraphModel, label: Seq<char>) -> Seq<NodeId> {
    ids_with_label_in(g.nodes, label)
}

/// In a store with unique node ids, looking up any stored node's id finds
/// that node itself.
pub proof fn lemma_find_node_unique(g: GraphModel, i: int)
    requires
        g.wf(),
        0 <= i < g.nodes.len(),
    ensures
        find_node_in(g.nodes, g.nodes[i].id) == Some(g.nodes[i]),
{
    assert(forall|j: int| 0 <= j < i ==> g.nodes[j].id != g.nodes[i].id);
    lemma_find_index_unique(g.nodes, g.nodes[i].id, i);
    lemma_find_index_in(g.nodes, g.nodes[i].id);
}

/// In a store with unique node ids, the id sequence has no duplicates.
pub proof fn lemma_node_ids_distinct(g: GraphModel)
    requires
        g.wf(),
    ensures
        node_ids(g).no_duplicates(),
{
    assert forall|i: int, j: int|
        0 <= i < node_ids(g).len() && 0 <= j < node_ids(g).len() && i != j implies node_ids(g)[i]
        != node_ids(g)[j] by {
        assert(node_ids(g)[i] == g.nodes[i].id);
        assert(node_ids(g)[j] == g.nodes[j].id);
    }
}

} // verus!
