use helix_graph::storage::HelixGraphStorage;
use helix_graph::traversal::{TraversalBuilder, TraversalValue};

fn setup_test_db() -> HelixGraphStorage {
    HelixGraphStorage::new()
}

#[test]
fn test_v() {
    let mut storage = setup_test_db();
    let person1 = storage.create_node("person", vec![]).unwrap();
    let person2 = storage.create_node("person", vec![]).unwrap();
    let thing = storage.create_node("thing", vec![]).unwrap();

    let mut traversal = TraversalBuilder::new(vec![]);
    traversal.v(&storage);

    match &traversal.current_step[0] {
        TraversalValue::NodeArray(nodes) => {
            assert_eq!(nodes.len(), 3);
            let node_ids: Vec<String> = nodes.iter().map(|n| n.id.clone()).collect();
            let node_labels: Vec<String> = nodes.iter().map(|n| n.label.clone()).collect();
            assert!(node_ids.contains(&person1.id));
            assert!(node_ids.contains(&person2.id));
            assert!(node_ids.contains(&thing.id));
            assert_eq!(node_labels.iter().filter(|&l| l == "person").count(), 2);
            assert_eq!(node_labels.iter().filter(|&l| l == "thing").count(), 1);
        }
        _ => panic!("Expected NodeArray value"),
    }
}

#[test]
fn test_e() {
    let mut storage = setup_test_db();
    let person1 = storage.create_node("person", vec![]).unwrap();
    let person2 = storage.create_node("person", vec![]).unwrap();
    let person3 = storage.create_node("person", vec![]).unwrap();
    let knows_edge = storage
        .create_edge("knows", &person1.id, &person2.id, vec![])
        .unwrap();
    let likes_edge = storage
        .create_edge("likes", &person1.id, &person3.id, vec![])
        .unwrap();
    let follows_edge = storage
        .create_edge("follows", &person2.id, &person3.id, vec![])
        .unwrap();

    let mut traversal = TraversalBuilder::new(vec![]);
    traversal.e(&storage);

    match &traversal.current_step[0] {
        TraversalValue::EdgeArray(edges) => {
            assert_eq!(edges.len(), 3);
            let edge_ids: Vec<String> = edges.iter().map(|e| e.id.clone()).collect();
            let edge_labels: Vec<String> = edges.iter().map(|e| e.label.clone()).collect();
            assert!(edge_ids.contains(&knows_edge.id));
            assert!(edge_ids.contains(&likes_edge.id));
            assert!(edge_ids.contains(&follows_edge.id));
            assert!(edge_labels.contains(&"knows".to_string()));
            assert!(edge_labels.contains(&"likes".to_string()));
            assert!(edge_labels.contains(&"follows".to_string()));
            for edge in edges {
                match edge.label.as_str() {
                    "knows" => {
                        assert_eq!(edge.from_node, person1.id);
                        assert_eq!(edge.to_node, person2.id);
                    }
                    "likes" => {
                        assert_eq!(edge.from_node, person1.id);
                        assert_eq!(edge.to_node, person3.id);
                    }
                    "follows" => {
                        assert_eq!(edge.from_node, person2.id);
                        assert_eq!(edge.to_node, person3.id);
                    }
                    _ => panic!("Unexpected edge label"),
                }
            }
        }
        _ => panic!("Expected EdgeArray value"),
    }
}

#[test]
fn test_v_empty_graph() {
    let storage = setup_test_db();
    let mut traversal = TraversalBuilder::new(vec![]);
    traversal.v(&storage);
    match &traversal.current_step[0] {
        TraversalValue::NodeArray(nodes) => {
            assert_eq!(nodes.len(), 0);
        }
        _ => panic!("Expected NodeArray value"),
    }
}

#[test]
fn test_e_empty_graph() {
    let storage = setup_test_db();
    let mut traversal = TraversalBuilder::new(vec![]);
    traversal.e(&storage);
    match &traversal.current_step[0] {
        TraversalValue::EdgeArray(edges) => {
            assert_eq!(edges.len(), 0);
        }
        _ => panic!("Expected EdgeArray value"),
    }
}

#[test]
fn test_v_nodes_without_edges() {
    let mut storage = setup_test_db();
    let person1 = storage.create_node("person", vec![]).unwrap();
    let person2 = storage.create_node("person", vec![]).unwrap();
    let mut traversal = TraversalBuilder::new(vec![]);
    traversal.v(&storage);
    match &traversal.current_step[0] {
        TraversalValue::NodeArray(nodes) => {
            assert_eq!(nodes.len(), 2);
            let node_ids: Vec<String> = nodes.iter().map(|n| n.id.clone()).collect();
            assert!(node_ids.contains(&person1.id));
            assert!(node_ids.contains(&person2.id));
        }
        _ => panic!("Expected NodeArray value"),
    }
}

#[test]
fn test_add_v() {
    let mut storage = setup_test_db();
    let mut traversal = TraversalBuilder::new(vec![]);
    traversal.add_v(&mut storage, "person");
    match &traversal.current_step[0] {
        TraversalValue::SingleNode(node) => {
            assert_eq!(node.label, "person");
        }
        _ => panic!("Expected SingleNode value"),
    }
}

#[test]
fn test_add_e() {
    let mut storage = setup_test_db();
    let node1 = storage.create_node("person", vec![]).unwrap();
    let node2 = storage.create_node("person", vec![]).unwrap();
    let mut traversal = TraversalBuilder::new(vec![]);
    traversal.add_e(&mut storage, "knows", &node1.id, &node2.id);
    match &traversal.current_step[0] {
        TraversalValue::SingleEdge(edge) => {
            assert_eq!(edge.label, "knows");
            assert_eq!(edge.from_node, node1.id);
            assert_eq!(edge.to_node, node2.id);
        }
        _ => panic!("Expected SingleEdge value"),
    }
}

#[test]
fn test_out() {
    let mut storage = setup_test_db();
    let person1 = storage.create_node("person", vec![]).unwrap();
    let person2 = storage.create_node("person", vec![]).unwrap();
    let person3 = storage.create_node("person", vec![]).unwrap();
    storage
        .create_edge("knows", &person1.id, &person2.id, vec![])
        .unwrap();
    storage
        .create_edge("knows", &person2.id, &person3.id, vec![])
        .unwrap();

    let mut traversal = TraversalBuilder::new(vec![person1.clone()]);
    traversal.out(&storage, "knows");

    match &traversal.current_step[0] {
        TraversalValue::NodeArray(nodes) => {
            assert_eq!(nodes.len(), 1);
            assert_eq!(nodes[0].id, person2.id);
        }
        _ => panic!("Expected NodeArray value"),
    }
}

#[test]
fn test_out_e() {
    let mut storage = setup_test_db();
    let person1 = storage.create_node("person", vec![]).unwrap();
    let person2 = storage.create_node("person", vec![]).unwrap();
    let edge = storage
        .create_edge("knows", &person1.id, &person2.id, vec![])
        .unwrap();

    let mut traversal = TraversalBuilder::new(vec![person1.clone()]);
    traversal.out_e(&storage, "knows");

    match &traversal.current_step[0] {
        TraversalValue::EdgeArray(edges) => {
            assert_eq!(edges.len(), 1);
            assert_eq!(edges[0].id, edge.id);
            assert_eq!(edges[0].label, "knows");
        }
        _ => panic!("Expected EdgeArray value"),
    }
}

#[test]
fn test_in() {
    let mut storage = setup_test_db();
    let person1 = storage.create_node("person", vec![]).unwrap();
    let person2 = storage.create_node("person", vec![]).unwrap();
    storage
        .create_edge("knows", &person1.id, &person2.id, vec![])
        .unwrap();

    let mut traversal = TraversalBuilder::new(vec![person2.clone()]);
    traversal.in_(&storage, "knows");

    match &traversal.current_step[0] {
        TraversalValue::NodeArray(nodes) => {
            assert_eq!(nodes.len(), 1);
            assert_eq!(nodes[0].id, person1.id);
        }
        _ => panic!("Expected NodeArray value"),
    }
}

#[test]
fn test_in_e() {
    let mut storage = setup_test_db();
    let person1 = storage.create_node("person", vec![]).unwrap();
    let person2 = storage.create_node("person", vec![]).unwrap();
    let edge = storage
        .create_edge("knows", &person1.id, &person2.id, vec![])
        .unwrap();

    let mut traversal = TraversalBuilder::new(vec![person2.clone()]);
    traversal.in_e(&storage, "knows");

    match &traversal.current_step[0] {
        TraversalValue::EdgeArray(edges) => {
            assert_eq!(edges.len(), 1);
            assert_eq!(edges[0].id, edge.id);
            assert_eq!(edges[0].label, "knows");
        }
        _ => panic!("Expected EdgeArray value"),
    }
}

#[test]
fn test_traversal_validation() {
    let mut storage = setup_test_db();
    let mut traversal = TraversalBuilder::new(vec![]);
    let node1 = storage.create_node("person", vec![]).unwrap();
    let node2 = storage.create_node("person", vec![]).unwrap();
    let edge = storage
        .create_edge("knows", &node1.id, &node2.id, vec![])
        .unwrap();
    traversal.current_step = vec![TraversalValue::SingleEdge(edge)];
    assert!(traversal.check_is_valid_node_traversal("test").is_err());

    traversal.current_step = vec![TraversalValue::SingleNode(node1)];
    assert!(traversal.check_is_valid_edge_traversal("test").is_err());
}

#[test]
fn test_complex_traversal() {
    let mut storage = setup_test_db();
    let person1 = storage.create_node("person", vec![]).unwrap();
    let person2 = storage.create_node("person", vec![]).unwrap();
    let person3 = storage.create_node("person", vec![]).unwrap();
    storage
        .create_edge("knows", &person1.id, &person2.id, vec![])
        .unwrap();
    storage
        .create_edge("likes", &person2.id, &person3.id, vec![])
        .unwrap();
    storage
        .create_edge("follows", &person3.id, &person1.id, vec![])
        .unwrap();

    let mut traversal = TraversalBuilder::new(vec![person1.clone()]);
    traversal.out(&storage, "knows");
    match &traversal.current_step[0] {
        TraversalValue::NodeArray(nodes) => {
            assert_eq!(nodes.len(), 1);
            assert_eq!(nodes[0].id, person2.id);
        }
        _ => panic!("Expected NodeArray value"),
    }

    traversal.out(&storage, "likes");
    match &traversal.current_step[0] {
        TraversalValue::NodeArray(nodes) => {
            assert_eq!(nodes.len(), 1);
            assert_eq!(nodes[0].id, person3.id);
        }
        _ => panic!("Expected NodeArray value"),
    }

    traversal.out(&storage, "follows");
    match &traversal.current_step[0] {
        TraversalValue::NodeArray(nodes) => {
            assert_eq!(nodes.len(), 1);
            assert_eq!(nodes[0].id, person1.id);
        }
        _ => panic!("Expected NodeArray value"),
    }
}

#[test]
fn test_three_hop_cycle_returns_to_start() {
    let mut storage = setup_test_db();
    let p1 = storage.create_node("person", vec![]).unwrap();
    let p2 = storage.create_node("person", vec![]).unwrap();
    let p3 = storage.create_node("person", vec![]).unwrap();
    storage.create_edge("knows", &p1.id, &p2.id, vec![]).unwrap();
    storage.create_edge("knows", &p2.id, &p3.id, vec![]).unwrap();
    storage.create_edge("knows", &p3.id, &p1.id, vec![]).unwrap();

    let mut traversal = TraversalBuilder::new(vec![p1.clone()]);
    traversal.out(&storage, "knows");
    traversal.out(&storage, "knows");
    traversal.out(&storage, "knows");
    match &traversal.current_step[0] {
        TraversalValue::NodeArray(nodes) => {
            assert_eq!(nodes.len(), 1);
            assert_eq!(nodes[0].id, p1.id);
        }
        _ => panic!("Expected NodeArray value"),
    }
}

#[test]
fn test_out_from_single_node_frontier() {
    let mut storage = setup_test_db();
    let mut traversal = TraversalBuilder::new(vec![]);
    traversal.add_v(&mut storage, "person");
    let p1 = match &traversal.current_step[0] {
        TraversalValue::SingleNode(node) => node.clone(),
        _ => panic!("Expected SingleNode value"),
    };
    let p2 = storage.create_node("person", vec![]).unwrap();
    storage.create_edge("knows", &p1.id, &p2.id, vec![]).unwrap();

    traversal.out(&storage, "knows");
    match &traversal.current_step[0] {
        TraversalValue::NodeArray(nodes) => {
            assert_eq!(nodes.len(), 1);
            assert_eq!(nodes[0].id, p2.id);
        }
        _ => panic!("Expected NodeArray value"),
    }
}
