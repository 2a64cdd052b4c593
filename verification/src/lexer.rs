//! The compiler: lowers a parsed query into a flat, branch-free opcode
//! sequence, with a point-lookup shortcut when a WHERE clause pins the start
//! node's id.

use crate::cypher::{
    CreatePattern, CreatePatternModel, CypherQuery, CypherQueryModel, MatchPattern,
    MatchPatternModel, WhereClause, WhereClauseModel,
};
use crate::cypher::ReturnClauseModel;
use crate::graph::{
    ids_with_label, ids_with_label_in, lemma_find_node_unique, lemma_node_ids_distinct,
    lemma_seed_result, lemma_traverse_no_duplicates, node_ids, seed_delta, start_state,
    traverse_spec, FilterModel, GraphModel, NodeId, NodeModel, TraverseFilter,
};
use crate::vm::{ops_view, vm_run, vm_step, Opcode, OpcodeModel};
use vstd::prelude::*;

verus! {

/// A filter that constrains nothing but the node label given.
pub open spec fn node_label_filter(label: Seq<char>) -> FilterModel {
    FilterModel {
        node_labels: seq![label],
        edge_labels: Seq::empty(),
        not_node_labels: Seq::empty(),
        not_edge_labels: Seq::empty(),
    }
}

/// The filter of the hop step of a relationship match: the edge label, and
/// the target node label when the pattern names one.
pub open spec fn hop_filter(to_label: Option<Seq<char>>, edge_label: Seq<char>) -> FilterModel {
    FilterModel {
        node_labels: match to_label {
            Some(l) => seq![l],
            None => Seq::empty(),
        },
        edge_labels: seq![edge_label],
        not_node_labels: Seq::empty(),
        not_edge_labels: Seq::empty(),
    }
}

/// The id a WHERE clause pins the start node to, if it is an id equality.
pub open spec fn spec_extract_start_id(w: Option<WhereClauseModel>) -> Option<u128> {
    match w {
        Some(WhereClauseModel::NodeIdEq { variable, value }) => Some(value),
        _ => None,
    }
}

/// The opcode sequence a query compiles to. For a MATCH, the scan or point
/// lookup comes first, then any label filter and edge hop, then — after the
/// traversal opcodes it was meant to bound — any `SetLimit`, then
/// `SaveResults`. A CREATE lowers to its single mutation opcode; an edge
/// creation with a variable endpoint lowers to nothing.
pub open spec fn spec_compile(q: CypherQueryModel) -> Seq<OpcodeModel> {
    match q {
        CypherQueryModel::Match { match_pattern, where_clause, return_clause, limit } => {
            let pattern_ops = match match_pattern {
                MatchPatternModel::SingleNode { variable, label } => {
                    match label {
                        Some(l) => seq![
                            OpcodeModel::SetCurrentFromAllNodes,
                            OpcodeModel::TraverseOut(node_label_filter(l)),
                        ],
                        None => seq![OpcodeModel::SetCurrentFromAllNodes],
                    }
                },
                MatchPatternModel::Relationship { from, edge, to } => {
                    let start_ops = match spec_extract_start_id(where_clause) {
                        Some(id) => seq![OpcodeModel::SetCurrentFromIds(seq![id])],
                        None => match from.label {
                            Some(l) => seq![
                                OpcodeModel::SetCurrentFromAllNodes,
                                OpcodeModel::TraverseOut(node_label_filter(l)),
                            ],
                            None => seq![OpcodeModel::SetCurrentFromAllNodes],
                        },
                    };
                    let hop_ops = match edge.label {
                        Some(el) => seq![OpcodeModel::TraverseOut(hop_filter(to.label, el))],
                        None => Seq::empty(),
                    };
                    start_ops + hop_ops
                },
            };
            let limit_ops = match limit {
                Some(k) => seq![OpcodeModel::SetLimit(k)],
                None => Seq::empty(),
            };
            pattern_ops + limit_ops + seq![OpcodeModel::SaveResults]
        },
        CypherQueryModel::Create { create_pattern } => {
            match create_pattern {
                CreatePatternModel::Node { variable, label, data } => seq![
                    OpcodeModel::CreateNode {
                        label: match label {
                            Some(l) => l,
                            None => Seq::empty(),
                        },
                        attributes: Seq::empty(),
                    },
                ],
                CreatePatternModel::Edge { from, from_id, edge, to, to_id } => {
                    match (from_id, to_id) {
                        (Some(f), Some(t)) => seq![
                            OpcodeModel::CreateEdge {
                                from: f,
                                to: t,
                                label: match edge.label {
                                    Some(l) => l,
                                    None => Seq::empty(),
                                },
                            },
                        ],
                        _ => Seq::empty(),
                    }
                },
            }
        },
    }
}

/// The id a WHERE clause pins the start node to, if it is an id equality.
pub fn extract_start_node_id(where_clause: &Option<WhereClause>) -> (r: Option<u128>)
    ensures
        r == spec_extract_start_id(crate::cypher::opt_where_view(*where_clause)),
{
    if let Some(WhereClause::NodeIdEq { variable, value }) = where_clause {
        Some(*value)
    } else {
        None
    }
}

/// An empty label list.
fn no_labels() -> (r: Vec<String>)
    ensures
        crate::graph::strs_view(r@) == Seq::<Seq<char>>::empty(),
{
    let r: Vec<String> = Vec::new();
    proof {
        assert(crate::graph::strs_view(r@) =~= Seq::<Seq<char>>::empty());
    }
    r
}

/// A label list of one entry.
fn one_label(label: String) -> (r: Vec<String>)
    ensures
        crate::graph::strs_view(r@) == seq![label@],
{
    let ghost l = label@;
    let mut r: Vec<String> = Vec::new();
    r.push(label);
    proof {
        assert(crate::graph::strs_view(r@) =~= seq![l]);
    }
    r
}

/// Lower a parsed query into its opcode sequence.
pub fn compile_to_opcodes(query: CypherQuery) -> (r: Vec<Opcode>)
    ensures
        ops_view(r@) == spec_compile(query@),
{
    let ghost qm = query@;
    let mut opcodes: Vec<Opcode> = Vec::new();
    proof {
        assert(ops_view(opcodes@) =~= Seq::<OpcodeModel>::empty());
    }

    match query {
        CypherQuery::Match { match_pattern, where_clause, return_clause, limit } => {
            match match_pattern {
                MatchPattern::SingleNode { variable, label } => {
                    opcodes.push(Opcode::SetCurrentFromAllNodes);
                    if let Some(label) = label {
                        let ghost l = label@;
                        let filter = TraverseFilter {
                            where_node_labels: one_label(label),
                            where_edge_labels: no_labels(),
                            where_not_node_labels: no_labels(),
                            where_not_edge_labels: no_labels(),
                        };
                        proof {
                            assert(filter@ == node_label_filter(l));
                        }
                        opcodes.push(Opcode::TraverseOut(filter));
                    }
                },
                MatchPattern::Relationship { from, edge, to } => {
                    if let Some(start_id) = extract_start_node_id(&where_clause) {
                        let mut ids: Vec<NodeId> = Vec::new();
                        ids.push(start_id);
                        proof {
                            assert(ids@ =~= seq![start_id]);
                        }
                        opcodes.push(Opcode::SetCurrentFromIds(ids));
                    } else {
                        opcodes.push(Opcode::SetCurrentFromAllNodes);
                        if let Some(label) = &from.label {
                            let ghost l = label@;
                            let filter = TraverseFilter {
                                where_node_labels: one_label(label.clone()),
                                where_edge_labels: no_labels(),
                                where_not_node_labels: no_labels(),
                                where_not_edge_labels: no_labels(),
                            };
                            proof {
                                assert(filter@ == node_label_filter(l));
                            }
                            opcodes.push(Opcode::TraverseOut(filter));
                        }
                    }
                    if let Some(edge_label) = edge.label {
                        let ghost el = edge_label@;
                        let ghost tl = crate::cypher::opt_str_view(to.label);
                        let node_labels = match to.label {
                            Some(l) => one_label(l),
                            None => no_labels(),
                        };
                        let filter = TraverseFilter {
                            where_node_labels: node_labels,
                            where_edge_labels: one_label(edge_label),
                            where_not_node_labels: no_labels(),
                            where_not_edge_labels: no_labels(),
                        };
                        proof {
                            assert(filter@ == hop_filter(tl, el));
                        }
                        opcodes.push(Opcode::TraverseOut(filter));
                    }
                },
            }

            if let Some(limit) = limit {
                opcodes.push(Opcode::SetLimit(limit));
            }

            opcodes.push(Opcode::SaveResults);
            proof {
                assert(ops_view(opcodes@) =~= spec_compile(qm));
            }
        },
        CypherQuery::Create { create_pattern } => {
            match create_pattern {
                CreatePattern::Node { variable, label, data } => {
                    let label_str = match label {
                        Some(l) => l,
                        None => String::new(),
                    };
                    let attributes: Vec<(String, String)> = Vec::new();
                    proof {
                        assert(crate::graph::attrs_view(attributes@) =~= Seq::<
                            (Seq<char>, Seq<char>),
                        >::empty());
                    }
                    opcodes.push(Opcode::CreateNode { label: label_str, attributes });
                },
                CreatePattern::Edge { from, from_id, edge, to, to_id } => {
                    if from_id.is_some() && to_id.is_some() {
                        let f = from_id.unwrap();
                        let t = to_id.unwrap();
                        let edge_label = match edge.label {
                            Some(l) => l,
                            None => String::new(),
                        };
                        opcodes.push(Opcode::CreateEdge { from: f, to: t, label: edge_label });
                    }
                },
            }
            proof {
                assert(ops_view(opcodes@) =~= spec_compile(qm));
            }
        },
    }

    opcodes
}


proof fn lemma_seed_delta_single_label(g: GraphModel, label: Seq<char>, i: int)
    requires
        g.wf(),
        0 <= i <= g.nodes.len(),
    ensures
        seed_delta(g, node_label_filter(label), node_ids(g).skip(i)) == ids_with_label_in(
            g.nodes.skip(i),
            label,
        ),
    decreases g.nodes.len() - i,
{
    let f = node_label_filter(label);
    let starts = node_ids(g).skip(i);
    if i == g.nodes.len() {
        assert(starts =~= Seq::<NodeId>::empty());
        assert(g.nodes.skip(i) =~= Seq::<NodeModel>::empty());
        assert(seed_delta(g, f, starts) =~= ids_with_label_in(g.nodes.skip(i), label));
    } else {
        lemma_seed_delta_single_label(g, label, i + 1);
        assert(node_ids(g)[i] == g.nodes[i].id);
        assert(starts[0] == g.nodes[i].id);
        lemma_find_node_unique(g, i);
        assert(f.node_labels.contains(g.nodes[i].label) == (g.nodes[i].label == label)) by {
            if f.node_labels.contains(g.nodes[i].label) {
                let k = choose|k: int|
                    0 <= k < f.node_labels.len() && f.node_labels[k] == g.nodes[i].label;
                assert(k == 0);
            } else if g.nodes[i].label == label {
                assert(f.node_labels[0] == g.nodes[i].label);
            }
        }
        assert(starts.drop_first() =~= node_ids(g).skip(i + 1));
        assert(g.nodes.skip(i).drop_first() =~= g.nodes.skip(i + 1));
        assert(g.nodes.skip(i)[0] == g.nodes[i]);
        assert(seed_delta(g, f, starts) =~= ids_with_label_in(g.nodes.skip(i), label));
    }
}

/// For a store with unique node ids that holds at least one node labeled
/// `label`, the compiled form of `MATCH (v:label) RETURN ... LIMIT k` runs
/// without error and leaves as its working set exactly the ids of the nodes
/// carrying `label`, in store order, each exactly once, with the store
/// untouched. (The compiler emits `SetLimit` after the traversal it was
/// meant to bound, so the label filter itself runs unbounded; the filter
/// step also ignores the limit by design, so the result holds for every
/// `k`.)
pub proof fn lemma_single_label_match(
    g: GraphModel,
    variable: Seq<char>,
    ret: ReturnClauseModel,
    label: Seq<char>,
    k: usize,
)
    requires
        g.wf(),
        ids_with_label(g, label).len() > 0,
    ensures
        ({
            let q = CypherQueryModel::Match {
                match_pattern: MatchPatternModel::SingleNode { variable, label: Some(label) },
                where_clause: None,
                return_clause: ret,
                limit: Some(k),
            };
            let run = vm_run(g, Seq::empty(), Seq::empty(), None, spec_compile(q));
            &&& run.err is None
            &&& run.g == g
            &&& run.current == ids_with_label(g, label)
            &&& run.current.no_duplicates()
        }),
{
    let q = CypherQueryModel::Match {
        match_pattern: MatchPatternModel::SingleNode { variable, label: Some(label) },
        where_clause: None,
        return_clause: ret,
        limit: Some(k),
    };
    let f = node_label_filter(label);
    let ops = spec_compile(q);
    let expected = seq![
        OpcodeModel::SetCurrentFromAllNodes,
        OpcodeModel::TraverseOut(f),
        OpcodeModel::SetLimit(k),
        OpcodeModel::SaveResults,
    ];
    assert(ops =~= expected);

    assert(g.nodes.len() > 0);
    assert(node_ids(g).len() > 0);

    lemma_seed_delta_single_label(g, label, 0);
    assert(node_ids(g).skip(0) =~= node_ids(g));
    assert(g.nodes.skip(0) =~= g.nodes);
    lemma_seed_result(g, f, node_ids(g), start_state());
    let matched = ids_with_label(g, label);
    assert(traverse_spec(g, node_ids(g), f, None) == matched) by {
        assert(Seq::<NodeId>::empty() + seed_delta(g, f, node_ids(g)) =~= seed_delta(
            g,
            f,
            node_ids(g),
        ));
    }
    lemma_node_ids_distinct(g);
    lemma_traverse_no_duplicates(g, node_ids(g), f, None);

    let s1 = vm_step(g, Seq::empty(), Seq::empty(), None, ops[0]);
    assert(s1.err is None && s1.current == node_ids(g));
    assert(ops.drop_first() =~= expected.drop_first());
    let ops1 = ops.drop_first();
    assert(ops1[0] == OpcodeModel::TraverseOut(f));
    let s2 = vm_step(s1.g, s1.current, s1.result, s1.limit, ops1[0]);
    assert(s2.err is None && s2.current == matched);
    let ops2 = ops1.drop_first();
    assert(ops2[0] == OpcodeModel::SetLimit(k));
    let s3 = vm_step(s2.g, s2.current, s2.result, s2.limit, ops2[0]);
    let ops3 = ops2.drop_first();
    assert(ops3[0] == OpcodeModel::SaveResults);
    let s4 = vm_step(s3.g, s3.current, s3.result, s3.limit, ops3[0]);
    let ops4 = ops3.drop_first();
    assert(ops4 =~= Seq::<OpcodeModel>::empty());
    assert(vm_run(g, Seq::empty(), Seq::empty(), None, ops) == vm_run(
        s1.g,
        s1.current,
        s1.result,
        s1.limit,
        ops1,
    ));
    assert(vm_run(s1.g, s1.current, s1.result, s1.limit, ops1) == vm_run(
        s2.g,
        s2.current,
        s2.result,
        s2.limit,
        ops2,
    ));
    assert(vm_run(s2.g, s2.current, s2.result, s2.limit, ops2) == vm_run(
        s3.g,
        s3.current,
        s3.result,
        s3.limit,
        ops3,
    ));
    assert(vm_run(s3.g, s3.current, s3.result, s3.limit, ops3) == vm_run(
        s4.g,
        s4.current,
        s4.result,
        s4.limit,
        ops4,
    ));
}

} // verus!
