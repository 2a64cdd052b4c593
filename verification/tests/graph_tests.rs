use micro_cypher::graph::{Edge, GraphStore, Node, TraverseFilter};

fn create_filter(node_label: &str, edge_label: &str) -> TraverseFilter {
    TraverseFilter {
        where_node_labels: vec![node_label.to_string()],
        where_edge_labels: vec![edge_label.to_string()],
        where_not_node_labels: Vec::new(),
        where_not_edge_labels: Vec::new(),
    }
}

// Test graph schema:
//
//     City(1) --Railway--> City(2) --Railway--> City(3)
//       |                      |                    |
//       |                      +--Highway--> Town(4)|
//       |                                           |
//       +--------------Railway----------------------+
//                      (cycle)
//
//     Town(5) (isolated node)
//
fn create_small_test_graph() -> GraphStore {
    let mut nodes = Vec::new();
    let mut edges = Vec::new();

    nodes.push(Node {
        id: 1,
        label: "City".to_string(),
        attributes: Vec::new(),
        outgoing_edge_indices: vec![0, 1],
    });

    nodes.push(Node {
        id: 2,
        label: "City".to_string(),
        attributes: Vec::new(),
        outgoing_edge_indices: vec![2, 3],
    });

    nodes.push(Node {
        id: 3,
        label: "City".to_string(),
        attributes: Vec::new(),
        outgoing_edge_indices: vec![4],
    });

    nodes.push(Node {
        id: 4,
        label: "Town".to_string(),
        attributes: Vec::new(),
        outgoing_edge_indices: vec![],
    });

    nodes.push(Node {
        id: 5,
        label: "Town".to_string(),
        attributes: Vec::new(),
        outgoing_edge_indices: vec![],
    });

    edges.push(Edge { from: 1, to: 2, label: "Railway".to_string() });
    edges.push(Edge { from: 1, to: 3, label: "Railway".to_string() });
    edges.push(Edge { from: 2, to: 3, label: "Railway".to_string() });
    edges.push(Edge { from: 2, to: 4, label: "Highway".to_string() });
    edges.push(Edge { from: 3, to: 1, label: "Railway".to_string() });

    GraphStore { node_count: 5, edge_count: 5, nonce: 6, nodes, edges }
}

#[test]
fn test_traverse_out_simple() {
    let graph = create_small_test_graph();

    let filter = create_filter("City", "Railway");
    let result = graph.traverse_out(&[1], &filter, None);

    assert_eq!(result.len(), 3);
    assert!(result.contains(&1)); // Start node is included
    assert!(result.contains(&2));
    assert!(result.contains(&3));
}

#[test]
fn graph_test_traverse_out_with_limit() {
    let graph = create_small_test_graph();

    let filter = create_filter("City", "Railway");
    let result = graph.traverse_out(&[1], &filter, Some(1));

    assert_eq!(result.len(), 1);
}

#[test]
fn test_traverse_out_wrong_edge_label() {
    let graph = create_small_test_graph();

    let filter = create_filter("City", "NONEXISTENT");
    let result = graph.traverse_out(&[1], &filter, None);

    assert_eq!(result.len(), 1);
    assert!(result.contains(&1)); // Start node is included even if no edges match
}

#[test]
fn test_traverse_out_wrong_node_label() {
    let graph = create_small_test_graph();

    let filter = create_filter("Town", "Railway");
    let result = graph.traverse_out(&[1], &filter, None);

    assert_eq!(result.len(), 0);
}

#[test]
fn test_traverse_out_multiple_start_nodes() {
    let graph = create_small_test_graph();

    let filter = create_filter("City", "Railway");
    let result = graph.traverse_out(&[1, 2], &filter, None);

    assert_eq!(result.len(), 3);
    assert!(result.contains(&1)); // Start node 1 is included
    assert!(result.contains(&2)); // Start node 2 is included
    assert!(result.contains(&3));
}

#[test]
fn test_traverse_out_handles_cycles() {
    let graph = create_small_test_graph();

    let filter = create_filter("City", "Railway");
    let result = graph.traverse_out(&[1], &filter, None);

    assert_eq!(result.len(), 3);
    assert!(result.contains(&1)); // Start node is included
    assert!(result.contains(&2));
    assert!(result.contains(&3));
}

#[test]
fn test_traverse_out_different_edge_types() {
    let graph = create_small_test_graph();

    let filter = create_filter("Town", "Highway");
    let result = graph.traverse_out(&[2], &filter, None);

    assert_eq!(result.len(), 1);
    assert!(result.contains(&4));
}

#[test]
fn test_traverse_out_nonexistent_start_node() {
    let graph = create_small_test_graph();

    let filter = create_filter("City", "Railway");
    let result = graph.traverse_out(&[999], &filter, None);

    assert_eq!(result.len(), 0);
}

#[test]
fn test_traverse_out_empty_start_nodes() {
    let graph = create_small_test_graph();

    let filter = create_filter("City", "Railway");
    let result = graph.traverse_out(&[], &filter, None);

    assert_eq!(result.len(), 0);
}

#[test]
fn test_traverse_out_multi_hop() {
    let graph = create_small_test_graph();

    let filter = create_filter("City", "Railway");
    let result = graph.traverse_out(&[1], &filter, None);

    assert_eq!(result.len(), 3);
    assert!(result.contains(&1)); // Start node is included
    assert!(result.contains(&2));
    assert!(result.contains(&3));
}

// Large test graph: two railway chains, a highway chain, and a highway loop
// back into the first chain.
fn create_large_test_graph() -> GraphStore {
    let mut nodes = Vec::new();
    let mut edges = Vec::new();

    nodes.push(Node {
        id: 1,
        label: "City".to_string(),
        attributes: Vec::new(),
        outgoing_edge_indices: vec![0, 1],
    });

    nodes.push(Node {
        id: 2,
        label: "City".to_string(),
        attributes: Vec::new(),
        outgoing_edge_indices: vec![2, 3],
    });

    nodes.push(Node {
        id: 3,
        label: "City".to_string(),
        attributes: Vec::new(),
        outgoing_edge_indices: vec![4],
    });

    nodes.push(Node {
        id: 4,
        label: "City".to_string(),
        attributes: Vec::new(),
        outgoing_edge_indices: vec![],
    });

    nodes.push(Node {
        id: 5,
        label: "Town".to_string(),
        attributes: Vec::new(),
        outgoing_edge_indices: vec![],
    });

    nodes.push(Node {
        id: 6,
        label: "Town".to_string(),
        attributes: Vec::new(),
        outgoing_edge_indices: vec![],
    });

    nodes.push(Node {
        id: 7,
        label: "City".to_string(),
        attributes: Vec::new(),
        outgoing_edge_indices: vec![5, 6],
    });

    nodes.push(Node {
        id: 8,
        label: "City".to_string(),
        attributes: Vec::new(),
        outgoing_edge_indices: vec![7],
    });

    nodes.push(Node {
        id: 9,
        label: "Town".to_string(),
        attributes: Vec::new(),
        outgoing_edge_indices: vec![8],
    });

    nodes.push(Node {
        id: 10,
        label: "Town".to_string(),
        attributes: Vec::new(),
        outgoing_edge_indices: vec![],
    });

    nodes.push(Node {
        id: 11,
        label: "Town".to_string(),
        attributes: Vec::new(),
        outgoing_edge_indices: vec![9, 10],
    });

    nodes.push(Node {
        id: 12,
        label: "Town".to_string(),
        attributes: Vec::new(),
        outgoing_edge_indices: vec![11],
    });

    nodes.push(Node {
        id: 13,
        label: "Town".to_string(),
        attributes: Vec::new(),
        outgoing_edge_indices: vec![],
    });

    edges.push(Edge { from: 1, to: 2, label: "Railway".to_string() });
    edges.push(Edge { from: 1, to: 6, label: "Highway".to_string() });
    edges.push(Edge { from: 2, to: 3, label: "Railway".to_string() });
    edges.push(Edge { from: 2, to: 5, label: "Highway".to_string() });
    edges.push(Edge { from: 3, to: 4, label: "Railway".to_string() });
    edges.push(Edge { from: 7, to: 2, label: "Railway".to_string() });
    edges.push(Edge { from: 7, to: 8, label: "Railway".to_string() });
    edges.push(Edge { from: 8, to: 9, label: "Highway".to_string() });
    edges.push(Edge { from: 9, to: 10, label: "Highway".to_string() });
    edges.push(Edge { from: 11, to: 1, label: "Highway".to_string() });
    edges.push(Edge { from: 11, to: 12, label: "Highway".to_string() });
    edges.push(Edge { from: 12, to: 13, label: "Highway".to_string() });

    GraphStore { node_count: 13, edge_count: 12, nonce: 14, nodes, edges }
}

#[test]
fn test_traverse_out_large_graph_simple_railway() {
    let graph = create_large_test_graph();

    let filter = create_filter("City", "Railway");
    let result = graph.traverse_out(&[1], &filter, None);

    assert_eq!(result.len(), 4);
    assert!(result.contains(&1)); // Start node is included
    assert!(result.contains(&2));
    assert!(result.contains(&3));
    assert!(result.contains(&4));
}

#[test]
fn test_traverse_out_large_graph_simple_highway() {
    let graph = create_large_test_graph();

    let filter = create_filter("Town", "Highway");
    let result = graph.traverse_out(&[11], &filter, None);

    assert_eq!(result.len(), 3);
    assert!(result.contains(&12));
    assert!(result.contains(&13));
    assert!(result.contains(&11));
}

// A label-only filter (empty edge-label sets) is idempotent: applying it to
// its own output returns that output unchanged.
#[test]
fn test_label_filter_idempotent() {
    let graph = create_small_test_graph();

    let filter = TraverseFilter {
        where_node_labels: vec!["City".to_string()],
        where_edge_labels: Vec::new(),
        where_not_node_labels: Vec::new(),
        where_not_edge_labels: Vec::new(),
    };
    let once = graph.traverse_out(&[1, 2, 3, 4, 5], &filter, None);
    let twice = graph.traverse_out(&once, &filter, None);

    assert_eq!(once, vec![1, 2, 3]);
    assert_eq!(twice, once);
}

// On the cycle 1 -> 2 -> 3 -> 1, a traversal from {1} terminates and never
// re-emits the start node.
#[test]
fn test_traverse_cycle_no_duplicates() {
    let graph = create_small_test_graph();

    let filter = create_filter("City", "Railway");
    let result = graph.traverse_out(&[1], &filter, None);

    assert_eq!(result, vec![1, 2, 3]);
    assert_eq!(result.iter().filter(|&&id| id == 1).count(), 1);
}

// With limit Some(k) and at most k start ids, the result never exceeds k.
#[test]
fn test_traverse_limit_bound() {
    let graph = create_small_test_graph();

    let filter = create_filter("City", "Railway");
    for k in 1..4usize {
        let result = graph.traverse_out(&[1], &filter, Some(k));
        assert!(result.len() <= k);
    }
}

#[test]
fn test_get_node_by_id() {
    let graph = create_small_test_graph();

    assert_eq!(graph.get_node_by_id(3).unwrap().label, "City");
    assert_eq!(graph.get_node_by_id(5).unwrap().label, "Town");
    assert!(graph.get_node_by_id(999).is_none());
}
