use helix_graph::parser::HelixParser;

#[test]
fn test_input() {
    let input = r#"
    V::Person {
        name: String,
        age: Number
    }
    
    E::Knows {
        From: Person,
        To: Person,
        Properties {
            since: Number
        }
    }
    
    QUERY findFriends => 
        GET V::Person 
        RETURN name
    "#;

    let parsed = HelixParser::parse_source(input);

    match parsed {
        Ok(source) => {
            assert_eq!(source.node_schemas.len(), 1);
            assert_eq!(source.node_schemas[0].name, "Person");
            assert_eq!(source.node_schemas[0].properties.len(), 2);

            assert_eq!(source.edge_schemas.len(), 1);
            assert_eq!(source.edge_schemas[0].name, "Knows");

            assert_eq!(source.queries.len(), 1);
            assert_eq!(source.queries[0].name, "findFriends");
        }
        Err(e) => {
            panic!("Parsing failed: {:?}", e);
        }
    }
}

#[test]
fn test_parse_edge_schema_endpoints() {
    let input = "E::Knows { From: Person, To: Animal }";
    let source = HelixParser::parse_source(input).unwrap();
    assert_eq!(source.edge_schemas.len(), 1);
    assert_eq!(source.edge_schemas[0].from, "Person");
    assert_eq!(source.edge_schemas[0].to, "Animal");
    assert_eq!(source.edge_schemas[0].properties.len(), 0);
}

#[test]
fn test_parse_query_with_chain_and_assignment() {
    let input = "QUERY hop => GET result <- V::Person ->out ->in RETURN result";
    let source = HelixParser::parse_source(input).unwrap();
    assert_eq!(source.queries.len(), 1);
    let q = &source.queries[0];
    assert_eq!(q.name, "hop");
    assert_eq!(q.body.assignment.as_deref(), Some("result"));
    assert_eq!(q.body.traversal.node, "Person");
    assert_eq!(q.body.traversal.children.len(), 2);
    assert_eq!(q.return_type, "result");
}

#[test]
fn test_parse_rejects_unknown_item() {
    let input = "WALK::Person { }";
    assert!(HelixParser::parse_source(input).is_err());
}
