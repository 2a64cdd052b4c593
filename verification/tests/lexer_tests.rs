use micro_cypher::cypher::{
    parse, CypherQuery, EdgeDirection, EdgePattern, MatchPattern, NodePattern, ReturnClause,
    WhereClause,
};
use micro_cypher::graph::{Edge, GraphStore, Node};
use micro_cypher::lexer::compile_to_opcodes;
use micro_cypher::vm::{Opcode, Vm, VmError, VmResult};

#[test]
fn test_compile_relationship_query() {
    let query = CypherQuery::Match {
        match_pattern: MatchPattern::Relationship {
            from: NodePattern { variable: "n".to_string(), label: Some("User".to_string()) },
            edge: EdgePattern {
                direction: EdgeDirection::Outgoing,
                label: Some("FOLLOWS".to_string()),
            },
            to: NodePattern { variable: "m".to_string(), label: Some("User".to_string()) },
        },
        where_clause: Some(WhereClause::NodeIdEq { variable: "n".to_string(), value: 42 }),
        return_clause: ReturnClause::NodeId { variable: "m".to_string() },
        limit: Some(10),
    };

    let opcodes = compile_to_opcodes(query);
    assert!(opcodes.len() >= 3);
}

#[test]
fn test_compile_with_start_node_id() {
    let query = CypherQuery::Match {
        match_pattern: MatchPattern::Relationship {
            from: NodePattern { variable: "n".to_string(), label: Some("User".to_string()) },
            edge: EdgePattern {
                direction: EdgeDirection::Outgoing,
                label: Some("FOLLOWS".to_string()),
            },
            to: NodePattern { variable: "m".to_string(), label: Some("User".to_string()) },
        },
        where_clause: Some(WhereClause::NodeIdEq { variable: "n".to_string(), value: 42 }),
        return_clause: ReturnClause::NodeId { variable: "m".to_string() },
        limit: Some(10),
    };

    let opcodes = compile_to_opcodes(query);
    assert!(opcodes.len() >= 3);

    match &opcodes[0] {
        Opcode::SetCurrentFromIds(ids) => {
            assert_eq!(ids, &vec![42]);
        }
        _ => panic!("Expected SetCurrentFromIds with start node id"),
    }
}

fn city_node(id: u128, outgoing: Vec<u32>) -> Node {
    Node {
        id,
        label: "City".to_string(),
        attributes: Vec::new(),
        outgoing_edge_indices: outgoing,
    }
}

// A single-label MATCH over a store whose matching nodes number no more than
// the limit returns exactly those ids, each exactly once.
#[test]
fn test_single_label_match_returns_each_id_once() {
    let mut graph = GraphStore {
        node_count: 4,
        edge_count: 0,
        nonce: 9,
        nodes: vec![
            city_node(2, vec![]),
            Node {
                id: 5,
                label: "Town".to_string(),
                attributes: Vec::new(),
                outgoing_edge_indices: vec![],
            },
            city_node(7, vec![]),
            city_node(8, vec![]),
        ],
        edges: Vec::new(),
    };

    let query = parse("MATCH (n:City) RETURN n.id LIMIT 10").unwrap();
    let ops = compile_to_opcodes(query);
    let mut vm = Vm::new();
    let result = vm.execute(&mut graph, &ops).unwrap();

    match result {
        VmResult::Nodes(ids) => {
            assert_eq!(ids, vec![2, 7, 8]);
        }
        _ => panic!("Expected Nodes result"),
    }
}

// The single-label MATCH example compiles to a scan, a label filter, the
// limit, and a save, in that order; executing it over an empty store fails,
// since the traversal refuses an empty working set.
#[test]
fn test_single_label_match_compiles_and_fails_on_empty_store() {
    let query = parse("MATCH (n:User) RETURN n.id LIMIT 10").unwrap();
    let ops = compile_to_opcodes(query);

    assert_eq!(ops.len(), 4);
    assert!(matches!(ops[0], Opcode::SetCurrentFromAllNodes));
    match &ops[1] {
        Opcode::TraverseOut(filter) => {
            assert_eq!(filter.where_node_labels, vec!["User".to_string()]);
            assert!(filter.where_edge_labels.is_empty());
            assert!(filter.where_not_node_labels.is_empty());
            assert!(filter.where_not_edge_labels.is_empty());
        }
        _ => panic!("Expected TraverseOut opcode"),
    }
    assert!(matches!(ops[2], Opcode::SetLimit(10)));
    assert!(matches!(ops[3], Opcode::SaveResults));

    let mut graph = GraphStore {
        node_count: 0,
        edge_count: 0,
        nonce: 0,
        nodes: Vec::new(),
        edges: Vec::new(),
    };
    let mut vm = Vm::new();
    let result = vm.execute(&mut graph, &ops);
    match result.unwrap_err() {
        VmError::InvalidNodeSet => {}
        _ => panic!("Expected InvalidNodeSet error"),
    }
}

// Creating an edge between two literal ids compiles to a single CreateEdge,
// appends exactly one edge, links it from the source node, and returns the
// target id.
#[test]
fn test_create_edge_by_ids_end_to_end() {
    let mut graph = GraphStore {
        node_count: 2,
        edge_count: 0,
        nonce: 3,
        nodes: vec![city_node(1, vec![]), city_node(2, vec![])],
        edges: Vec::new(),
    };

    let query = parse("CREATE (1)-[:FOLLOWS]->(2)").unwrap();
    let ops = compile_to_opcodes(query);

    assert_eq!(ops.len(), 1);
    match &ops[0] {
        Opcode::CreateEdge { from, to, label } => {
            assert_eq!(*from, 1);
            assert_eq!(*to, 2);
            assert_eq!(label, "FOLLOWS");
        }
        _ => panic!("Expected CreateEdge opcode"),
    }

    let mut vm = Vm::new();
    let result = vm.execute(&mut graph, &ops).unwrap();

    assert_eq!(graph.edges.len(), 1);
    assert_eq!(graph.edge_count, 1);
    assert_eq!(graph.edges[0].from, 1);
    assert_eq!(graph.edges[0].to, 2);
    assert_eq!(graph.edges[0].label, "FOLLOWS");
    assert_eq!(graph.nodes[0].outgoing_edge_indices, vec![0]);
    match result {
        VmResult::Nodes(ids) => assert_eq!(ids, vec![2]),
        _ => panic!("Expected Nodes result"),
    }
}

// Creating an edge between bare variables compiles to nothing and so fails
// with NoReturnValue when executed.
#[test]
fn test_create_edge_by_variables_compiles_to_nothing() {
    let query = parse("CREATE (a:User)-[:KNOWS]->(b:User)").unwrap();
    let ops = compile_to_opcodes(query);
    assert_eq!(ops.len(), 0);

    let mut graph = GraphStore {
        node_count: 0,
        edge_count: 0,
        nonce: 0,
        nodes: Vec::new(),
        edges: Vec::new(),
    };
    let mut vm = Vm::new();
    match vm.execute(&mut graph, &ops).unwrap_err() {
        VmError::NoReturnValue => {}
        _ => panic!("Expected NoReturnValue error"),
    }
}

// The compiler emits SetLimit after the traversal opcodes it was meant to
// bound, so the edge hop of a relationship MATCH runs unbounded: with LIMIT
// 1 the query still yields every reached node.
#[test]
fn test_limit_emitted_after_traversal_leaves_hop_unbounded() {
    let mut graph = GraphStore {
        node_count: 3,
        edge_count: 2,
        nonce: 4,
        nodes: vec![city_node(1, vec![0, 1]), city_node(2, vec![]), city_node(3, vec![])],
        edges: vec![
            Edge { from: 1, to: 2, label: "Railway".to_string() },
            Edge { from: 1, to: 3, label: "Railway".to_string() },
        ],
    };

    let query = parse("MATCH (a:City)->[:Railway]->(b) RETURN b LIMIT 1").unwrap();
    let ops = compile_to_opcodes(query);

    // The SetLimit opcode stands after both TraverseOut opcodes.
    assert!(matches!(ops[0], Opcode::SetCurrentFromAllNodes));
    assert!(matches!(ops[1], Opcode::TraverseOut(_)));
    assert!(matches!(ops[2], Opcode::TraverseOut(_)));
    assert!(matches!(ops[3], Opcode::SetLimit(1)));
    assert!(matches!(ops[4], Opcode::SaveResults));

    let mut vm = Vm::new();
    let result = vm.execute(&mut graph, &ops).unwrap();
    match result {
        VmResult::Nodes(ids) => {
            // All three nodes come back despite LIMIT 1.
            assert_eq!(ids, vec![1, 2, 3]);
        }
        _ => panic!("Expected Nodes result"),
    }
}

// The point lookup: a WHERE id equality on the start variable replaces the
// full scan.
#[test]
fn test_point_lookup_from_parsed_query() {
    let query = parse("MATCH (a:City)->[:Railway]->(b) WHERE a.id = 1 RETURN b LIMIT 5").unwrap();
    let ops = compile_to_opcodes(query);
    match &ops[0] {
        Opcode::SetCurrentFromIds(ids) => assert_eq!(ids, &vec![1]),
        _ => panic!("Expected SetCurrentFromIds opcode"),
    }
}

// Empty brackets mean an unlabeled edge: with no edge label and no start
// label, a relationship MATCH compiles to a bare scan plus limit and save.
#[test]
fn test_relationship_empty_brackets_unlabeled_edge() {
    let mut graph = GraphStore {
        node_count: 2,
        edge_count: 0,
        nonce: 3,
        nodes: vec![city_node(1, vec![]), city_node(2, vec![])],
        edges: Vec::new(),
    };

    let query = parse("MATCH (a)-[]-(b) RETURN * LIMIT 3").unwrap();
    match &query {
        CypherQuery::Match { match_pattern, .. } => match match_pattern {
            MatchPattern::Relationship { edge, .. } => {
                assert_eq!(edge.label, None);
                assert_eq!(edge.direction, EdgeDirection::Bidirectional);
            }
            _ => panic!("Expected Relationship pattern"),
        },
        _ => panic!("Expected Match query"),
    }

    let ops = compile_to_opcodes(query);
    assert_eq!(ops.len(), 3);
    assert!(matches!(ops[0], Opcode::SetCurrentFromAllNodes));
    assert!(matches!(ops[1], Opcode::SetLimit(3)));
    assert!(matches!(ops[2], Opcode::SaveResults));

    let mut vm = Vm::new();
    match vm.execute(&mut graph, &ops).unwrap() {
        VmResult::Nodes(ids) => assert_eq!(ids, vec![1, 2]),
        _ => panic!("Expected Nodes result"),
    }
}

// An incoming relationship: the direction marker before the brackets decides,
// and only matching closing markers are consumed.
#[test]
fn test_parse_incoming_relationship() {
    let query = parse("MATCH (a)-<[:Railway]<-(b) RETURN * LIMIT 2").unwrap();
    match query {
        CypherQuery::Match { match_pattern, .. } => match match_pattern {
            MatchPattern::Relationship { from, edge, to } => {
                assert_eq!(from.variable, "a");
                assert_eq!(to.variable, "b");
                assert_eq!(edge.direction, EdgeDirection::Incoming);
                assert_eq!(edge.label, Some("Railway".to_string()));
            }
            _ => panic!("Expected Relationship pattern"),
        },
        _ => panic!("Expected Match query"),
    }
}
