use cdks::builder::retrieve_query_text;
use cdks::Neo4jQuery;
use cdks::Neo4jQueryBuilder;

#[test]
fn test_build_query() {
    let query_builder = Neo4jQueryBuilder::new()
        .create_node(
            "Person",
            &vec![
                ("name".to_string(), "Alice".to_string()),
                ("age".to_string(), "30".to_string()),
            ],
        )
        .create_node(
            "House",
            &vec![
                ("city".to_string(), "Madrid".to_string()),
                ("type".to_string(), "apartment".to_string()),
            ],
        )
        .add_edge(&"Person".to_string(), &"House".to_string(), "OWNS")
        .expect("Failed to add edge");

    let (query, params) = query_builder.build();
    assert_eq!(
        query,
        "CREATE (n0:Person { name:$param_0, age:$param_1 })\nCREATE (n1:House { city:$param_2, type:$param_3 })\nWITH n0, n1 MATCH (n0:Person), (n1:House) CREATE (n0)-[:OWNS]->(n1)\n"
    );
    assert_eq!(
        params,
        vec![
            ("param_0".to_string(), "Alice".to_string()),
            ("param_1".to_string(), "30".to_string()),
            ("param_2".to_string(), "Madrid".to_string()),
            ("param_3".to_string(), "apartment".to_string())
        ]
    )
}

#[test]
fn test_build_query_2() {
    let query_builder = Neo4jQueryBuilder::new()
        .create_node(
            "Person",
            &vec![
                ("name".to_string(), "Alice".to_string()),
                ("age".to_string(), "30".to_string()),
            ],
        )
        .create_node(
            "Person",
            &vec![
                ("name".to_string(), "Bob".to_string()),
                ("age".to_string(), "25".to_string()),
            ],
        )
        .add_edge(&"Person".to_string(), &"Person".to_string(), "KNOWS")
        .expect("Failed to add edge")
        .return_fields(&vec!["a.name".to_string(), "b.name".to_string()])
        .limit(10);

    let (query, params) = query_builder.build();
    assert_eq!(
        query,
        "CREATE (n0:Person { name:$param_0, age:$param_1 })\nCREATE (n1:Person { name:$param_2, age:$param_3 })\nWITH n0, n1 MATCH (n0:Person), (n0:Person) CREATE (n0)-[:KNOWS]->(n0)\n RETURN n.a.name, n.b.name\n LIMIT 10\n"
    );
    assert_eq!(
        params,
        vec![
            ("param_0".to_string(), "Alice".to_string()),
            ("param_1".to_string(), "30".to_string()),
            ("param_2".to_string(), "Bob".to_string()),
            ("param_3".to_string(), "25".to_string())
        ]
    )
}

#[test]
fn test_deserialize() {
    let query_builder = Neo4jQueryBuilder::new()
        .create_node(
            "Person",
            &vec![("name".to_string(), "Alice".to_string())],
        )
        .return_fields(&vec!["Name".to_string(), "Age".to_string()])
        .limit(10);

    let serialized = query_builder.to_json_string();
    assert_eq!(
        serialized.as_str(),
        r#"{"nodes":[{"label":"Person","properties":[["name","Alice"]]}],"edges":[],"return_fields":["Name","Age"],"limit":10}"#
    );
}

#[test]
fn test_deserialize_retrieve_nodes() {
    let neo4j_query = Neo4jQuery::Retrieve(vec![0, 1, 2]);
    assert_eq!(
        neo4j_query.to_json_string().as_str(),
        r#"{"retrieve":[0,1,2]}"#
    );
}

#[test]
fn test_add_edge_unknown_endpoint() {
    let builder = Neo4jQueryBuilder::new().create_node("A", &vec![]);
    assert!(builder
        .clone()
        .add_edge(&"A".to_string(), &"Missing".to_string(), "r")
        .is_err());
    assert!(builder
        .clone()
        .add_edge(&"Missing".to_string(), &"A".to_string(), "r")
        .is_err());
    assert!(builder
        .add_edge(&"A".to_string(), &"A".to_string(), "r")
        .is_ok());
}

#[test]
fn test_build_without_properties() {
    let builder = Neo4jQueryBuilder::new().create_node("Lone", &vec![]);
    let (query, params) = builder.build();
    assert_eq!(query, "CREATE (n0:Lone)\n");
    assert!(params.is_empty());
}

#[test]
fn test_build_param_names_follow_insertion_order() {
    let builder = Neo4jQueryBuilder::new()
        .create_node("A", &vec![("k0".to_string(), "v0".to_string())])
        .create_node(
            "B",
            &vec![
                ("k1".to_string(), "v1".to_string()),
                ("k2".to_string(), "v2".to_string()),
            ],
        );
    let (_, params) = builder.build();
    for (i, (name, _)) in params.iter().enumerate() {
        assert_eq!(*name, format!("param_{}", i));
    }
    assert_eq!(
        params.iter().map(|p| p.1.as_str()).collect::<Vec<_>>(),
        vec!["v0", "v1", "v2"]
    );
}

#[test]
fn test_retrieve_query_text() {
    assert_eq!(
        retrieve_query_text(&vec![0, 1, 2]).as_str(),
        "MATCH (n) WHERE ID(n) IN [0, 1, 2] MATCH (n)-[r]->(m) RETURN n, r, m"
    );
    assert_eq!(
        retrieve_query_text(&vec![]).as_str(),
        "MATCH (n) WHERE ID(n) IN [] MATCH (n)-[r]->(m) RETURN n, r, m"
    );
}

#[test]
fn test_builder_serialization_with_edges() {
    let builder = Neo4jQueryBuilder::new()
        .create_node("A", &vec![])
        .create_node("B", &vec![])
        .add_edge(&"A".to_string(), &"B".to_string(), "r")
        .unwrap();
    assert_eq!(
        Neo4jQuery::Builder(builder).to_json_string().as_str(),
        r#"{"builder":{"nodes":[{"label":"A","properties":[]},{"label":"B","properties":[]}],"edges":[{"source":"A","target":"B","edge_relation":"r"}],"return_fields":[],"limit":null}}"#
    );
}
