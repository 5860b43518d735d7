use helix_graph::storage::HelixGraphStorage;
use helix_graph::value::Value;

fn setup_temp_db() -> HelixGraphStorage {
    HelixGraphStorage::new()
}

fn props(pairs: Vec<(&str, Value)>) -> Vec<(String, Value)> {
    pairs.into_iter().map(|(k, v)| (k.to_string(), v)).collect()
}

#[test]
fn test_create_node() {
    let mut storage = setup_temp_db();
    let properties = props(vec![("name", Value::String("test node".to_string()))]);
    let node = storage.create_node("person", properties).unwrap();
    let retrieved_node = storage.get_node(&node.id).unwrap();
    assert_eq!(node.id, retrieved_node.id);
    assert_eq!(node.label, "person");
    assert_eq!(
        node.property("name").unwrap(),
        &Value::String("test node".to_string())
    );
}

#[test]
fn test_create_edge() {
    let mut storage = setup_temp_db();
    let node1 = storage.create_node("person", vec![]).unwrap();
    let node2 = storage.create_node("person", vec![]).unwrap();
    let edge_props = props(vec![("age", Value::Integer(22))]);
    let edge = storage
        .create_edge("knows", &node1.id, &node2.id, edge_props)
        .unwrap();
    let retrieved_edge = storage.get_edge(&edge.id).unwrap();
    assert_eq!(edge.id, retrieved_edge.id);
    assert_eq!(edge.label, "knows");
    assert_eq!(edge.from_node, node1.id);
    assert_eq!(edge.to_node, node2.id);
}

#[test]
fn test_create_edge_with_nonexistent_nodes() {
    let mut storage = setup_temp_db();
    let result = storage.create_edge("knows", "nonexistent1", "nonexistent2", vec![]);
    assert!(result.is_err());
}

#[test]
fn test_drop_edge() {
    let mut storage = setup_temp_db();
    let node1 = storage.create_node("person", vec![]).unwrap();
    let node2 = storage.create_node("person", vec![]).unwrap();
    let edge = storage
        .create_edge("knows", &node1.id, &node2.id, vec![])
        .unwrap();
    storage.drop_edge(&edge.id).unwrap();
    assert!(storage.get_edge(&edge.id).is_err());
}

#[test]
fn test_check_exists() {
    let mut storage = setup_temp_db();
    let node = storage.create_node("person", vec![]).unwrap();
    assert!(storage.check_exists(&node.id).unwrap());
    assert!(!storage.check_exists("nonexistent").unwrap());
}

#[test]
fn test_get_temp_node() {
    let mut storage = setup_temp_db();
    let node = storage.create_node("person", vec![]).unwrap();
    let temp_node = storage.get_temp_node(&node.id).unwrap();
    assert_eq!(node.id, temp_node.id);
    assert_eq!(node.label, temp_node.label);
}

#[test]
fn test_multiple_edges_between_nodes() {
    let mut storage = setup_temp_db();
    let node1 = storage.create_node("person", vec![]).unwrap();
    let node2 = storage.create_node("person", vec![]).unwrap();
    let edge1 = storage
        .create_edge("knows", &node1.id, &node2.id, vec![])
        .unwrap();
    let edge2 = storage
        .create_edge("likes", &node1.id, &node2.id, vec![])
        .unwrap();
    assert!(storage.get_edge(&edge1.id).is_ok());
    assert!(storage.get_edge(&edge2.id).is_ok());
}

#[test]
fn test_node_with_properties() {
    let mut storage = setup_temp_db();
    let properties = props(vec![
        ("name", Value::String("George".to_string())),
        ("age", Value::Integer(22)),
        ("active", Value::Boolean(true)),
    ]);
    let node = storage.create_node("person", properties).unwrap();
    let retrieved_node = storage.get_node(&node.id).unwrap();
    assert_eq!(
        retrieved_node.property("name").unwrap(),
        &Value::String("George".to_string())
    );
    assert_eq!(retrieved_node.property("age").unwrap(), &Value::Integer(22));
    assert_eq!(
        retrieved_node.property("active").unwrap(),
        &Value::Boolean(true)
    );
}

#[test]
fn test_get_all_edges() {
    let mut storage = setup_temp_db();
    let node1 = storage.create_node("person", vec![]).unwrap();
    let node2 = storage.create_node("person", vec![]).unwrap();
    let node3 = storage.create_node("person", vec![]).unwrap();
    let edge1 = storage
        .create_edge("knows", &node1.id, &node2.id, vec![])
        .unwrap();
    let edge2 = storage
        .create_edge("likes", &node2.id, &node3.id, vec![])
        .unwrap();
    let edge3 = storage
        .create_edge("follows", &node1.id, &node3.id, vec![])
        .unwrap();
    let edges = storage.get_all_edges().unwrap();
    assert_eq!(edges.len(), 3);
    let edge_ids: Vec<String> = edges.iter().map(|e| e.id.clone()).collect();
    assert!(edge_ids.contains(&edge1.id));
    assert!(edge_ids.contains(&edge2.id));
    assert!(edge_ids.contains(&edge3.id));
    let labels: Vec<String> = edges.iter().map(|e| e.label.clone()).collect();
    assert!(labels.contains(&"knows".to_string()));
    assert!(labels.contains(&"likes".to_string()));
    assert!(labels.contains(&"follows".to_string()));
    let connections: Vec<(String, String)> = edges
        .iter()
        .map(|e| (e.from_node.clone(), e.to_node.clone()))
        .collect();
    assert!(connections.contains(&(node1.id.clone(), node2.id.clone())));
    assert!(connections.contains(&(node2.id.clone(), node3.id.clone())));
    assert!(connections.contains(&(node1.id.clone(), node3.id.clone())));
}

#[test]
fn test_value_serialization_round_trip() {
    let v = Value::Array(vec![
        Value::String("hello".to_string()),
        Value::Integer(-42),
        Value::Boolean(true),
        Value::Float(2.5f64.to_bits()),
        Value::Null,
        Value::Array(vec![Value::Integer(7)]),
    ]);
    let bytes = helix_graph::binfmt::serialize_value(&v);
    let back = helix_graph::binfmt::deserialize_value(&bytes).unwrap();
    assert_eq!(v, back);
}

#[test]
fn test_out_in_edges() {
    let mut storage = setup_temp_db();
    let p1 = storage.create_node("person", vec![]).unwrap();
    let p2 = storage.create_node("person", vec![]).unwrap();
    let edge = storage
        .create_edge("knows", &p1.id, &p2.id, vec![])
        .unwrap();
    let out = storage.get_out_edges(&p1.id, "knows").unwrap();
    assert_eq!(out.len(), 1);
    assert_eq!(out[0].id, edge.id);
    let inc = storage.get_in_edges(&p2.id, "knows").unwrap();
    assert_eq!(inc.len(), 1);
    assert_eq!(inc[0].id, edge.id);
    let far = storage.get_out_nodes(&p1.id, "knows").unwrap();
    assert_eq!(far.len(), 1);
    assert_eq!(far[0].id, p2.id);
    let near = storage.get_in_nodes(&p2.id, "knows").unwrap();
    assert_eq!(near.len(), 1);
    assert_eq!(near[0].id, p1.id);
}

#[test]
fn test_drop_node() {
    let mut storage = setup_temp_db();
    let node1 = storage.create_node("person", vec![]).unwrap();
    let node2 = storage.create_node("person", vec![]).unwrap();
    let node3 = storage.create_node("person", vec![]).unwrap();
    storage
        .create_edge("knows", &node1.id, &node2.id, vec![])
        .unwrap();
    storage
        .create_edge("knows", &node3.id, &node1.id, vec![])
        .unwrap();
    storage.drop_node(&node1.id).unwrap();
    assert!(storage.get_node(&node1.id).is_err());
}

#[test]
fn test_drop_node_removes_incident_edges() {
    let mut storage = setup_temp_db();
    let p1 = storage.create_node("person", vec![]).unwrap();
    let p2 = storage.create_node("person", vec![]).unwrap();
    let edge = storage.create_edge("knows", &p1.id, &p2.id, vec![]).unwrap();
    storage.drop_node(&p1.id).unwrap();
    assert!(storage.get_edge(&edge.id).is_err());
    assert_eq!(storage.get_in_edges(&p2.id, "knows").unwrap().len(), 0);
}

#[test]
fn test_get_all_nodes() {
    let mut storage = setup_temp_db();
    let node1 = storage.create_node("person", vec![]).unwrap();
    let node2 = storage.create_node("thing", vec![]).unwrap();
    let node3 = storage.create_node("other", vec![]).unwrap();

    let nodes = storage.get_all_nodes().unwrap();

    assert_eq!(nodes.len(), 3);
    let node_ids: Vec<String> = nodes.iter().map(|n| n.id.clone()).collect();
    assert!(node_ids.contains(&node1.id));
    assert!(node_ids.contains(&node2.id));
    assert!(node_ids.contains(&node3.id));
    let labels: Vec<String> = nodes.iter().map(|n| n.label.clone()).collect();
    assert!(labels.contains(&"person".to_string()));
    assert!(labels.contains(&"thing".to_string()));
    assert!(labels.contains(&"other".to_string()));
}

#[test]
fn test_request_head_parsing() {
    let head = "GET /test HTTP/1.1\r\nHost: localhost\r\nContent-Length: 11\r\n\r\n";
    let request = helix_graph::protocol::Request::parse_head(head);
    assert_eq!(request.method, "GET");
    assert_eq!(request.path, "/test");
    assert_eq!(request.content_length(), Some(11));
    assert_eq!(request.header_value("Host").map(|s| s.as_str()), Some("localhost"));
}

#[test]
fn test_value_coercions() {
    assert_eq!(Value::from(21), Value::Integer(21));
    assert_eq!(Value::from(true), Value::Boolean(true));
    assert_eq!(Value::from("Will"), Value::String("Will".to_string()));
}

#[test]
fn test_response_head_text() {
    let mut response = helix_graph::protocol::Response::new();
    response.body = b"Hello World".to_vec();
    let head = response.head_text();
    assert_eq!(
        head,
        "HTTP/1.1 200 OK\r\nContent-Type: text/plain\r\nContent-Length: 11\r\n\r\n"
    );
}
