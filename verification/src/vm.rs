//! The bytecode interpreter: a flat, branch-free opcode sequence is run
//! against a graph store; the first failing opcode aborts the program,
//! leaving earlier mutations in place.

use crate::graph::{
    attrs_view, find_index_in, find_node_in, lemma_find_index_in, lemma_find_index_unique,
    node_ids, traverse_spec, Edge, EdgeModel, FilterModel, GraphModel, GraphStore, Node, NodeId,
    NodeModel, TraverseFilter,
};
use vstd::prelude::*;

verus! {

/// One instruction of a compiled query program.
#[derive(Debug, Clone)]
pub enum Opcode {
    SetCurrentFromAllNodes,
    SetCurrentFromIds(Vec<NodeId>),
    TraverseOut(TraverseFilter),
    SetLimit(usize),
    SaveResults,
    CreateNode { label: String, attributes: Vec<(String, String)> },
    CreateEdge { from: NodeId, to: NodeId, label: String },
}

/// Mathematical image of an `Opcode`.
pub ghost enum OpcodeModel {
    SetCurrentFromAllNodes,
    SetCurrentFromIds(Seq<NodeId>),
    TraverseOut(FilterModel),
    SetLimit(usize),
    SaveResults,
    CreateNode { label: Seq<char>, attributes: Seq<(Seq<char>, Seq<char>)> },
    CreateEdge { from: NodeId, to: NodeId, label: Seq<char> },
}

impl View for Opcode {
    type V = OpcodeModel;

    open spec fn view(&self) -> OpcodeModel {
        match self {
            Opcode::SetCurrentFromAllNodes => OpcodeModel::SetCurrentFromAllNodes,
            Opcode::SetCurrentFromIds(ids) => OpcodeModel::SetCurrentFromIds(ids@),
            Opcode::TraverseOut(f) => OpcodeModel::TraverseOut(f@),
            Opcode::SetLimit(n) => OpcodeModel::SetLimit(*n),
            Opcode::SaveResults => OpcodeModel::SaveResults,
            Opcode::CreateNode { label, attributes } => OpcodeModel::CreateNode {
                label: label@,
                attributes: attrs_view(attributes@),
            },
            Opcode::CreateEdge { from, to, label } => OpcodeModel::CreateEdge {
                from: *from,
                to: *to,
                label: label@,
            },
        }
    }
}

/// The view of an opcode sequence.
pub open spec fn ops_view(ops: Seq<Opcode>) -> Seq<OpcodeModel> {
    ops.map_values(|op: Opcode| op@)
}

/// What a successfully executed program evaluates to.
#[derive(Debug, Clone)]
pub enum VmResult {
    Nodes(Vec<NodeId>),
    Scalar(i64),
    Empty,
}

/// A single typed value; reserved for scalar-producing extensions.
#[derive(Debug, Clone)]
pub enum VmValue {
    Int(i64),
    Str(String),
}

/// The errors an executing program can fail with.
#[derive(Debug, Clone, PartialEq, Eq, Structural)]
pub enum VmError {
    NoReturnValue,
    InvalidNodeSet,
    NodeNotFound,
    Overflow,
}

/// The interpreter state between opcodes: the working node-id list, the
/// accumulated results, and the shared traversal limit register.
pub struct Vm {
    pub current_set: Vec<NodeId>,
    pub result_set: Vec<NodeId>,
    pub limit: Option<usize>,
}

/// The state reached after running some opcodes: the graph, the three
/// registers, and the error that stopped the run, if one did.
pub ghost struct VmRun {
    pub g: GraphModel,
    pub current: Seq<NodeId>,
    pub result: Seq<NodeId>,
    pub limit: Option<usize>,
    pub err: Option<VmError>,
}

/// The effect of one opcode on the interpreter state.
pub open spec fn vm_step(
    g: GraphModel,
    cur: Seq<NodeId>,
    res: Seq<NodeId>,
    lim: Option<usize>,
    op: OpcodeModel,
) -> VmRun {
    match op {
        OpcodeModel::SetCurrentFromAllNodes => VmRun {
            g,
            current: node_ids(g),
            result: res,
            limit: lim,
            err: None,
        },
        OpcodeModel::SetCurrentFromIds(ids) => VmRun {
            g,
            current: ids,
            result: res,
            limit: lim,
            err: None,
        },
        OpcodeModel::TraverseOut(f) => {
            if cur.len() == 0 {
                VmRun { g, current: cur, result: res, limit: lim, err: Some(VmError::InvalidNodeSet) }
            } else {
                VmRun {
                    g,
                    current: traverse_spec(g, cur, f, lim),
                    result: res,
                    limit: lim,
                    err: None,
                }
            }
        },
        OpcodeModel::SetLimit(n) => VmRun { g, current: cur, result: res, limit: Some(n), err: None },
        OpcodeModel::SaveResults => VmRun { g, current: cur, result: res + cur, limit: lim, err: None },
        OpcodeModel::CreateNode { label, attributes } => {
            if g.nonce == u128::MAX {
                VmRun { g, current: cur, result: res, limit: lim, err: Some(VmError::Overflow) }
            } else {
                let node = NodeModel {
                    id: g.nonce,
                    label,
                    attributes,
                    outgoing_edge_indices: Seq::empty(),
                };
                let g1 = GraphModel {
                    node_count: g.node_count,
                    edge_count: g.edge_count,
                    nonce: (g.nonce + 1) as u128,
                    nodes: g.nodes.push(node),
                    edges: g.edges,
                };
                if g.node_count == u64::MAX {
                    VmRun { g: g1, current: cur, result: res, limit: lim, err: Some(VmError::Overflow) }
                } else {
                    let g2 = GraphModel {
                        node_count: (g.node_count + 1) as u64,
                        edge_count: g1.edge_count,
                        nonce: g1.nonce,
                        nodes: g1.nodes,
                        edges: g1.edges,
                    };
                    VmRun { g: g2, current: seq![node.id], result: res, limit: lim, err: None }
                }
            }
        },
        OpcodeModel::CreateEdge { from, to, label } => {
            if find_node_in(g.nodes, from) is None || find_node_in(g.nodes, to) is None {
                VmRun { g, current: cur, result: res, limit: lim, err: Some(VmError::NodeNotFound) }
            } else {
                let edge_index = g.edges.len() as u32;
                let g1 = GraphModel {
                    node_count: g.node_count,
                    edge_count: g.edge_count,
                    nonce: g.nonce,
                    nodes: g.nodes,
                    edges: g.edges.push(EdgeModel { from, to, label }),
                };
                if g.edge_count == u64::MAX {
                    VmRun { g: g1, current: cur, result: res, limit: lim, err: Some(VmError::Overflow) }
                } else {
                    let g2 = GraphModel {
                        node_count: g1.node_count,
                        edge_count: (g.edge_count + 1) as u64,
                        nonce: g1.nonce,
                        nodes: g1.nodes,
                        edges: g1.edges,
                    };
                    match find_index_in(g2.nodes, from) {
                        Some(i) => {
                            let old_node = g2.nodes[i];
                            let new_node = NodeModel {
                                id: old_node.id,
                                label: old_node.label,
                                attributes: old_node.attributes,
                                outgoing_edge_indices: old_node.outgoing_edge_indices.push(
                                    edge_index,
                                ),
                            };
                            let g3 = GraphModel {
                                node_count: g2.node_count,
                                edge_count: g2.edge_count,
                                nonce: g2.nonce,
                                nodes: g2.nodes.update(i, new_node),
                                edges: g2.edges,
                            };
                            VmRun { g: g3, current: seq![to], result: res, limit: lim, err: None }
                        },
                        None => VmRun {
                            g: g2,
                            current: cur,
                            result: res,
                            limit: lim,
                            err: Some(VmError::NodeNotFound),
                        },
                    }
                }
            }
        },
    }
}

/// Running a whole program: a straight-line pass that stops at the first
/// failing opcode, keeping the state it had reached.
pub open spec fn vm_run(
    g: GraphModel,
    cur: Seq<NodeId>,
    res: Seq<NodeId>,
    lim: Option<usize>,
    ops: Seq<OpcodeModel>,
) -> VmRun
    decreases ops.len(),
{
    if ops.len() == 0 {
        VmRun { g, current: cur, result: res, limit: lim, err: None }
    } else {
        let s = vm_step(g, cur, res, lim, ops[0]);
        if s.err is Some {
            s
        } else {
            vm_run(s.g, s.current, s.result, s.limit, ops.drop_first())
        }
    }
}

impl Vm {
    /// A fresh interpreter: empty working set, empty result accumulator, no
    /// limit.
    pub fn new() -> (vm: Vm)
        ensures
            vm.current_set@ == Seq::<NodeId>::empty(),
            vm.result_set@ == Seq::<NodeId>::empty(),
            vm.limit is None,
    {
        Vm { current_set: Vec::new(), result_set: Vec::new(), limit: None }
    }

    /// The working set, required non-empty; traversal refuses to start from
    /// nothing.
    fn get_current_nodes(&self) -> (r: Result<&[NodeId], VmError>)
        ensures
            match r {
                Ok(s) => self.current_set@.len() > 0 && s@ == self.current_set@,
                Err(e) => self.current_set@.len() == 0 && e == VmError::InvalidNodeSet,
            },
    {
        if self.current_set.len() == 0 {
            return Err(VmError::InvalidNodeSet);
        }
        Ok(self.current_set.as_slice())
    }

    /// Run `ops` against `graph` in a single straight-line pass. The first
    /// failing opcode aborts the program and is returned as the error;
    /// mutations applied by earlier opcodes stay. A completed program
    /// returns the working set if non-empty, else the saved results if
    /// non-empty, else fails with `NoReturnValue`.
    #[verifier::loop_isolation(false)]
    pub fn execute(&mut self, graph: &mut GraphStore, ops: &Vec<Opcode>) -> (r: Result<
        VmResult,
        VmError,
    >)
        ensures
            ({
                let run = vm_run(
                    old(graph)@,
                    old(self).current_set@,
                    old(self).result_set@,
                    old(self).limit,
                    ops_view(ops@),
                );
                &&& final(graph)@ == run.g
                &&& final(self).current_set@ == run.current
                &&& final(self).result_set@ == run.result
                &&& final(self).limit == run.limit
                &&& (match run.err {
                    Some(e) => r == Err::<VmResult, VmError>(e),
                    None => {
                        if run.current.len() > 0 {
                            r matches Ok(v) && v matches VmResult::Nodes(ids) && ids@
                                == run.current
                        } else if run.result.len() > 0 {
                            r matches Ok(v) && v matches VmResult::Nodes(ids) && ids@
                                == run.result
                        } else {
                            r == Err::<VmResult, VmError>(VmError::NoReturnValue)
                        }
                    },
                })
            }),
    {
        let ghost run0 = vm_run(
            graph@,
            self.current_set@,
            self.result_set@,
            self.limit,
            ops_view(ops@),
        );
        proof {
            assert(ops_view(ops@).skip(0) =~= ops_view(ops@));
        }
        let n = ops.len();
        for i in 0..n
            invariant
                n == ops@.len(),
                vm_run(
                    graph@,
                    self.current_set@,
                    self.result_set@,
                    self.limit,
                    ops_view(ops@).skip(i as int),
                ) == run0,
        {
            let ghost pre_g = graph@;
            let ghost pre_cur = self.current_set@;
            let ghost pre_res = self.result_set@;
            let ghost pre_lim = self.limit;
            let ghost om = ops@[i as int]@;
            proof {
                assert(ops_view(ops@).skip(i as int)[0] == om);
                assert(ops_view(ops@).skip(i as int).drop_first() =~= ops_view(ops@).skip(
                    i as int + 1,
                ));
            }
            match &ops[i] {
                Opcode::SetCurrentFromAllNodes => {
                    self.current_set = collect_ids(graph);
                },
                Opcode::SetCurrentFromIds(node_ids) => {
                    self.current_set = copy_ids(node_ids);
                },
                Opcode::TraverseOut(filter) => {
                    let start_nodes = match self.get_current_nodes() {
                        Ok(s) => s,
                        Err(e) => {
                            proof {
                                let step = vm_step(pre_g, pre_cur, pre_res, pre_lim, om);
                                assert(step.err == Some(VmError::InvalidNodeSet));
                                assert(run0 == step);
                            }
                            return Err(e);
                        },
                    };
                    let result = graph.traverse_out(start_nodes, filter, self.limit);
                    self.current_set = result;
                },
                Opcode::SetLimit(limit) => {
                    self.limit = Some(*limit);
                },
                Opcode::SaveResults => {
                    self.result_set.extend_from_slice(self.current_set.as_slice());
                    proof {
                        assert forall|j: int|
                            0 <= j < self.result_set@.len() implies self.result_set@[j] == (pre_res
                            + pre_cur)[j] by {
                            if j >= pre_res.len() {
                                assert(vstd::pervasive::cloned::<u128>(
                                    pre_cur[j - pre_res.len()],
                                    self.result_set@[j],
                                ));
                            }
                        }
                        assert(self.result_set@ =~= pre_res + pre_cur);
                    }
                },
                Opcode::CreateNode { label, attributes } => {
                    let id = graph.nonce;
                    let new_nonce = match graph.nonce.checked_add(1) {
                        Some(v) => v,
                        None => {
                            proof {
                                let step = vm_step(pre_g, pre_cur, pre_res, pre_lim, om);
                                assert(step.err == Some(VmError::Overflow));
                                assert(run0 == step);
                            }
                            return Err(VmError::Overflow);
                        },
                    };
                    graph.nonce = new_nonce;
                    let node = Node {
                        id,
                        label: label.clone(),
                        attributes: clone_attrs(attributes),
                        outgoing_edge_indices: Vec::new(),
                    };
                    let ghost node_m = node@;
                    graph.nodes.push(node);
                    proof {
                        assert(graph@.nodes =~= pre_g.nodes.push(node_m));
                    }
                    let new_count = match graph.node_count.checked_add(1) {
                        Some(v) => v,
                        None => {
                            proof {
                                let step = vm_step(pre_g, pre_cur, pre_res, pre_lim, om);
                                assert(step.err == Some(VmError::Overflow));
                                assert(step.g == graph@);
                                assert(run0 == step);
                            }
                            return Err(VmError::Overflow);
                        },
                    };
                    graph.node_count = new_count;
                    let mut cs: Vec<NodeId> = Vec::new();
                    cs.push(id);
                    self.current_set = cs;
                    proof {
                        assert(self.current_set@ =~= seq![id]);
                        let step = vm_step(pre_g, pre_cur, pre_res, pre_lim, om);
                        assert(step.g == graph@);
                    }
                },
                Opcode::CreateEdge { from, to, label } => {
                    let from_exists = graph.get_node_by_id(*from).is_some();
                    let to_exists = graph.get_node_by_id(*to).is_some();
                    if !from_exists || !to_exists {
                        proof {
                            let step = vm_step(pre_g, pre_cur, pre_res, pre_lim, om);
                            assert(step.err == Some(VmError::NodeNotFound));
                            assert(run0 == step);
                        }
                        return Err(VmError::NodeNotFound);
                    }
                    let edge_index = #[verifier::truncate] (graph.edges.len() as u32);
                    let edge = Edge { from: *from, to: *to, label: label.clone() };
                    let ghost edge_m = edge@;
                    graph.edges.push(edge);
                    proof {
                        assert(graph@.edges =~= pre_g.edges.push(edge_m));
                        assert(graph@.nodes == pre_g.nodes);
                    }
                    let new_ec = match graph.edge_count.checked_add(1) {
                        Some(v) => v,
                        None => {
                            proof {
                                let step = vm_step(pre_g, pre_cur, pre_res, pre_lim, om);
                                assert(step.err == Some(VmError::Overflow));
                                assert(step.g == graph@);
                                assert(run0 == step);
                            }
                            return Err(VmError::Overflow);
                        },
                    };
                    graph.edge_count = new_ec;
                    let from_index = match find_position(graph, *from) {
                        Some(idx) => idx,
                        None => {
                            proof {
                                let step = vm_step(pre_g, pre_cur, pre_res, pre_lim, om);
                                assert(step.err == Some(VmError::NodeNotFound));
                                assert(step.g == graph@);
                                assert(run0 == step);
                            }
                            return Err(VmError::NodeNotFound);
                        },
                    };
                    let ghost g2 = graph@;
                    proof {
                        lemma_find_index_in(g2.nodes, *from);
                        assert(0 <= from_index < graph.nodes@.len());
                    }
                    graph.nodes[from_index].outgoing_edge_indices.push(edge_index);
                    proof {
                        let old_node = g2.nodes[from_index as int];
                        let new_node = NodeModel {
                            id: old_node.id,
                            label: old_node.label,
                            attributes: old_node.attributes,
                            outgoing_edge_indices: old_node.outgoing_edge_indices.push(edge_index),
                        };
                        assert(graph@.nodes =~= g2.nodes.update(from_index as int, new_node));
                    }
                    let mut cs: Vec<NodeId> = Vec::new();
                    cs.push(*to);
                    self.current_set = cs;
                    proof {
                        assert(self.current_set@ =~= seq![*to]);
                        let step = vm_step(pre_g, pre_cur, pre_res, pre_lim, om);
                        assert(step.g == graph@);
                    }
                },
            }
            proof {
                let step = vm_step(pre_g, pre_cur, pre_res, pre_lim, om);
                assert(step.err is None);
                assert(step.g == graph@);
                assert(step.current == self.current_set@);
                assert(step.result == self.result_set@);
                assert(step.limit == self.limit);
            }
        }
        proof {
            assert(ops_view(ops@).skip(n as int) =~= Seq::<OpcodeModel>::empty());
            assert(run0.err is None);
        }
        if self.current_set.len() > 0 {
            Ok(VmResult::Nodes(copy_ids(&self.current_set)))
        } else if self.result_set.len() > 0 {
            Ok(VmResult::Nodes(copy_ids(&self.result_set)))
        } else {
            Err(VmError::NoReturnValue)
        }
    }
}

/// With the allocator `nonce` already at its maximum, creating a node fails
/// with `Overflow` and leaves the store untouched: neither `nodes` nor
/// `node_count` nor `nonce` changes.
pub proof fn lemma_create_node_overflow(
    g: GraphModel,
    cur: Seq<NodeId>,
    res: Seq<NodeId>,
    lim: Option<usize>,
    label: Seq<char>,
    attributes: Seq<(Seq<char>, Seq<char>)>,
)
    requires
        g.nonce == u128::MAX,
    ensures
        vm_step(g, cur, res, lim, OpcodeModel::CreateNode { label, attributes }).err == Some(
            VmError::Overflow,
        ),
        vm_step(g, cur, res, lim, OpcodeModel::CreateNode { label, attributes }).g == g,
        vm_step(g, cur, res, lim, OpcodeModel::CreateNode { label, attributes }).current == cur,
        vm_step(g, cur, res, lim, OpcodeModel::CreateNode { label, attributes }).result == res,
{
}

/// Creating an edge fails with `NodeNotFound` when either endpoint id is
/// absent from the store, and in that case the store — its edge list
/// included — is untouched.
pub proof fn lemma_create_edge_missing_endpoint(
    g: GraphModel,
    cur: Seq<NodeId>,
    res: Seq<NodeId>,
    lim: Option<usize>,
    from: NodeId,
    to: NodeId,
    label: Seq<char>,
)
    requires
        find_node_in(g.nodes, from) is None || find_node_in(g.nodes, to) is None,
    ensures
        vm_step(g, cur, res, lim, OpcodeModel::CreateEdge { from, to, label }).err == Some(
            VmError::NodeNotFound,
        ),
        vm_step(g, cur, res, lim, OpcodeModel::CreateEdge { from, to, label }).g == g,
{
}

/// One successful opcode keeps the store invariant, as long as the edge list
/// has room for one more `u32`-indexed entry. It grows the edge list by at
/// most one entry.
pub proof fn lemma_step_preserves_wf(
    g: GraphModel,
    cur: Seq<NodeId>,
    res: Seq<NodeId>,
    lim: Option<usize>,
    op: OpcodeModel,
)
    requires
        g.wf(),
        g.edges.len() < u32::MAX,
    ensures
        vm_step(g, cur, res, lim, op).err is None ==> vm_step(g, cur, res, lim, op).g.wf(),
        vm_step(g, cur, res, lim, op).err is None ==> vm_step(g, cur, res, lim, op).g.edges.len()
            <= g.edges.len() + 1,
{
    let s = vm_step(g, cur, res, lim, op);
    if s.err is None {
        match op {
            OpcodeModel::CreateNode { label, attributes } => {
                let g2 = s.g;
                assert(g2.nodes.len() == g.nodes.len() + 1);
                assert(forall|i: int|
                    0 <= i < g.nodes.len() ==> g2.nodes[i] == #[trigger] g.nodes[i]);
                assert(g2.nodes[g.nodes.len() as int].id == g.nonce);
                assert(g2.wf());
            },
            OpcodeModel::CreateEdge { from, to, label } => {
                let i = find_index_in(g.nodes, from);
                lemma_find_index_in(g.nodes, from);
                let g3 = s.g;
                let idx = i.unwrap();
                assert(g3.nodes.len() == g.nodes.len());
                assert(g3.edges.len() == g.edges.len() + 1);
                assert(forall|j: int|
                    0 <= j < g.nodes.len() && j != idx ==> g3.nodes[j] == #[trigger] g.nodes[j]);
                assert(g3.nodes[idx].id == g.nodes[idx].id);
                assert(g3.nodes[idx].outgoing_edge_indices == g.nodes[idx].outgoing_edge_indices.push(
                    g.edges.len() as u32,
                ));
                assert(g.edges.len() as u32 == g.edges.len());
                assert forall|a: int, k: int|
                    0 <= a < g3.nodes.len() && 0 <= k < g3.nodes[a].outgoing_edge_indices.len()
                        implies g3.nodes[a].outgoing_edge_indices[k] < g3.edges.len()
                        && g3.edges[g3.nodes[a].outgoing_edge_indices[k] as int].from
                        == g3.nodes[a].id by {
                    if a == idx && k == g3.nodes[a].outgoing_edge_indices.len() - 1 {
                        assert(g3.nodes[a].outgoing_edge_indices[k] == g.edges.len() as u32);
                        assert(g3.edges[g.edges.len() as int].from == from);
                    } else {
                        assert(g3.nodes[a].outgoing_edge_indices[k] == g.nodes[
                            a
                        ].outgoing_edge_indices[k]);
                    }
                }
                assert(g3.wf());
            },
            _ => {},
        }
    }
}

/// A program that runs to completion keeps the store invariant, provided the
/// edge list has room for one entry per opcode.
pub proof fn lemma_run_preserves_wf(
    g: GraphModel,
    cur: Seq<NodeId>,
    res: Seq<NodeId>,
    lim: Option<usize>,
    ops: Seq<OpcodeModel>,
)
    requires
        g.wf(),
        g.edges.len() + ops.len() <= u32::MAX,
    ensures
        vm_run(g, cur, res, lim, ops).err is None ==> vm_run(g, cur, res, lim, ops).g.wf(),
    decreases ops.len(),
{
    if ops.len() == 0 {
    } else {
        let s = vm_step(g, cur, res, lim, ops[0]);
        if s.err is None {
            lemma_step_preserves_wf(g, cur, res, lim, ops[0]);
            lemma_run_preserves_wf(s.g, s.current, s.result, s.limit, ops.drop_first());
        }
    }
}

/// Copy of an attribute list, pair by pair.
fn clone_attrs(attrs: &Vec<(String, String)>) -> (r: Vec<(String, String)>)
    ensures
        attrs_view(r@) == attrs_view(attrs@),
{
    let mut r: Vec<(String, String)> = Vec::new();
    let n = attrs.len();
    for i in 0..n
        invariant
            n == attrs.len(),
            r@.len() == i,
            forall|j: int|
                0 <= j < i ==> (#[trigger] r@[j]).0@ == attrs@[j].0@ && r@[j].1@ == attrs@[j].1@,
    {
        let key = attrs[i].0.clone();
        let value = attrs[i].1.clone();
        r.push((key, value));
    }
    proof {
        assert(attrs_view(r@) =~= attrs_view(attrs@));
    }
    r
}

/// The ids of all stored nodes, in store order.
fn collect_ids(graph: &GraphStore) -> (r: Vec<NodeId>)
    ensures
        r@ == node_ids(graph@),
{
    let mut r: Vec<NodeId> = Vec::new();
    let n = graph.nodes.len();
    for i in 0..n
        invariant
            n == graph.nodes.len(),
            r@ == node_ids(graph@).take(i as int),
    {
        r.push(graph.nodes[i].id);
        proof {
            assert(r@ =~= node_ids(graph@).take(i as int + 1));
        }
    }
    proof {
        assert(node_ids(graph@).take(n as int) =~= node_ids(graph@));
    }
    r
}

/// Copy of an id list.
fn copy_ids(ids: &Vec<NodeId>) -> (r: Vec<NodeId>)
    ensures
        r@ == ids@,
{
    let r = ids.clone();
    proof {
        assert forall|j: int| 0 <= j < ids@.len() implies r@[j] == ids@[j] by {
            assert(vstd::pervasive::cloned::<u128>(ids[j], r[j]));
        }
        assert(r@ =~= ids@);
    }
    r
}

/// The position of the first stored node carrying `id`, in store order.
fn find_position(graph: &GraphStore, id: NodeId) -> (r: Option<usize>)
    ensures
        match r {
            Some(i) => find_index_in(graph@.nodes, id) == Some(i as int),
            None => find_index_in(graph@.nodes, id) is None,
        },
{
    let n = graph.nodes.len();
    for i in 0..n
        invariant
            n == graph.nodes.len(),
            forall|j: int| 0 <= j < i ==> graph@.nodes[j].id != id,
    {
        if graph.nodes[i].id == id {
            proof {
                lemma_find_index_unique(graph@.nodes, id, i as int);
            }
            return Some(i);
        }
        assert(graph@.nodes[i as int].id != id);
    }
    proof {
        lemma_find_index_in(graph@.nodes, id);
        if find_index_in(graph@.nodes, id) is Some {
            let i = find_index_in(graph@.nodes, id).unwrap();
            assert(graph@.nodes[i].id == id);
        }
    }
    None
}

} // verus!
