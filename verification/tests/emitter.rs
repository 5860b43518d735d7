use helix_graph::query_gen::TraversalGenerator;

#[test]
fn test_type_safe_traversal() {
    let generator = TraversalGenerator::new("test_function")
        .v()
        .out("knows")
        .in_("follows")
        .out_e("likes");

    let code = generator.generate_code().unwrap();

    assert!(code.contains("pub fn test_function("));
    assert!(code.contains("traversal.v(storage);"));
    assert!(code.contains("traversal.out(storage, \"knows\");"));
    assert!(code.contains("traversal.in_(storage, \"follows\");"));
    assert!(code.contains("traversal.out_e(storage, \"likes\");"));
}

#[test]
fn test_compile_find_friends_source() {
    let input = r#"
V::Person { name: String, age: Number }
E::Knows  { From: Person, To: Person, Properties { since: Number } }
QUERY findFriends => GET V::Person RETURN name
"#;
    let source = helix_graph::parser::HelixParser::parse_source(input).unwrap();
    assert_eq!(source.queries.len(), 1);
    let query = &source.queries[0];
    assert_eq!(query.name, "findFriends");
    assert_eq!(query.return_type, "name");

    let generator = TraversalGenerator::new(query.name.as_str()).v();
    let code = generator.generate_code().unwrap();
    assert!(code.contains("pub fn findFriends("));

    let mut scaffold = helix_graph::project_gen::ProjectGenerator::new("graph_queries", ".")
        .with_queries(vec![(query.name.clone(), code)]);
    scaffold.add_dependency("serde", "1");

    let cargo_toml = scaffold.generate_cargo_toml();
    assert!(cargo_toml.contains("[package]"));
    assert!(cargo_toml.contains("name = \"graph_queries\""));
    assert!(cargo_toml.contains("helix-engine"));
    assert!(cargo_toml.contains("serde = \"1\""));

    let lib_rs = scaffold.generate_lib_rs();
    assert!(lib_rs.contains("mod traversals;"));
    assert!(lib_rs.contains("pub use traversals::findFriends;"));

    let traversals_rs = scaffold.generate_traversal_module();
    assert!(traversals_rs.contains("pub fn findFriends("));
}
