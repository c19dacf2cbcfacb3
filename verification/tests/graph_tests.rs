use std::collections::HashSet;

use cdks::Entity;
use cdks::KgError;
use cdks::KnowledgeGraph;
use cdks::Relation;

#[test]
fn test_from_relations() {
    let relations = vec![
        Relation::new(Entity::new("entity_1"), Entity::new("entity_2"), "relation_12"),
        Relation::new(Entity::new("entity_3"), Entity::new("entity_4"), "relation_34"),
        Relation::new(Entity::new("entity_5"), Entity::new("entity_6"), "relation_56"),
        Relation::new(Entity::new("entity_7"), Entity::new("entity_8"), "relation_78"),
        Relation::new(Entity::new("entity_3"), Entity::new("entity_5"), "relation_35"),
    ];

    let knowledge_graph = KnowledgeGraph::from_relations(relations.clone());
    assert_eq!(*knowledge_graph.relations(), relations);

    let mut entities: HashSet<Entity> = relations.iter().map(|r| r.head().clone()).collect();
    entities.extend(relations.iter().map(|r| r.tail().clone()));

    assert_eq!(knowledge_graph.entities().len(), entities.len());

    for entity in &entities {
        assert!(knowledge_graph.entities().contains(entity));
    }
}

#[test]
fn test_deserialize_knowledge_graph() {
    let json = r#"
        {
            "entities": ["entity_1","entity_2","entity_3"],
            "relations": [ { "head": "entity_1", "tail": "entity_2", "relation": "rel_1" },
                           { "head": "entity_2", "tail": "entity_3","relation": "rel_2"}]
        }
        "#;

    let knowledge_graph = KnowledgeGraph::parse(json).unwrap();

    let expected_entities = vec![
        Entity::new("entity_1"),
        Entity::new("entity_2"),
        Entity::new("entity_3"),
    ];
    let expected_relations = vec![
        Relation::new(Entity::new("entity_1"), Entity::new("entity_2"), "rel_1"),
        Relation::new(Entity::new("entity_2"), Entity::new("entity_3"), "rel_2"),
    ];
    let expected_graph = KnowledgeGraph::new_unchecked(expected_entities, expected_relations);

    assert_eq!(knowledge_graph, expected_graph);
}

#[test]
fn graph_test_deserialize_knowledge_graph() {
    let json = r#"
        {
            "entities": ["entity_1","entity_2","entity_3"],
            "relations": [ { "head": "entity_1", "tail": "entity_2", "relation": "rel_1" },
                           { "head": "entity_2", "tail": "entity_3","relation": "rel_2"}]
        }
        "#;

    let knowledge_graph = KnowledgeGraph::parse(json).unwrap();

    let expected_graph = KnowledgeGraph::new_unchecked(
        vec![
            Entity::new("entity_1"),
            Entity::new("entity_2"),
            Entity::new("entity_3"),
        ],
        vec![
            Relation::new(Entity::new("entity_1"), Entity::new("entity_2"), "rel_1"),
            Relation::new(Entity::new("entity_2"), Entity::new("entity_3"), "rel_2"),
        ],
    );

    assert_eq!(knowledge_graph, expected_graph);
}

#[test]
fn test_serialize_deserialize_knowledge_graphs() {
    let json = r#"
        {
            "entities": ["entity_1","entity_2","entity_3"],
            "relations": [ { "head": "entity_1", "tail": "entity_2", "relation": "relation_12" },
                           { "head": "entity_2", "tail": "entity_3","relation": "relation_23"}]
        }
        "#;

    let knowledge_graph = KnowledgeGraph::parse(json).unwrap();
    let serialized = knowledge_graph.to_json_string();
    let deserialized = KnowledgeGraph::parse(&serialized)
        .expect("Failed to serialize validator node identity");

    assert_eq!(deserialized, knowledge_graph);
}

#[test]
fn graph_test_serialize_deserialize_knowledge_graphs() {
    let json = r#"
        {
            "entities": ["entity_1","entity_2","entity_3"],
            "relations": [ { "head": "entity_1", "tail": "entity_2", "relation": "relation_12" },
                           { "head": "entity_2", "tail": "entity_3","relation": "relation_23"}]
        }
        "#;

    let knowledge_graph = KnowledgeGraph::parse(json).unwrap();
    let serialized = knowledge_graph.to_json_string();
    let deserialized = KnowledgeGraph::parse(&serialized).unwrap();

    assert_eq!(deserialized, knowledge_graph);
}

#[test]
fn test_serialize() {
    let knowledge_graph = KnowledgeGraph::new_unchecked(
        vec![
            Entity::new("entity_1"),
            Entity::new("entity_2"),
            Entity::new("entity_3"),
        ],
        vec![
            Relation::new(
                Entity::new("entity_1"),
                Entity::new("entity_2"),
                "relation_12",
            ),
            Relation::new(
                Entity::new("entity_2"),
                Entity::new("entity_3"),
                "relation_23",
            ),
        ],
    );

    let serialized = knowledge_graph.to_json_string();
    let should_be_json_str = r#"{"entities":["entity_1","entity_2","entity_3"],"relations":[{"head":"entity_1","tail":"entity_2","relation":"relation_12"},{"head":"entity_2","tail":"entity_3","relation":"relation_23"}]}"#;
    assert_eq!(serialized.as_str(), should_be_json_str);
}

#[test]
fn graph_test_serialize() {
    let knowledge_graph = KnowledgeGraph::new_unchecked(
        vec![
            Entity::new("entity_1"),
            Entity::new("entity_2"),
            Entity::new("entity_3"),
        ],
        vec![
            Relation::new(
                Entity::new("entity_1"),
                Entity::new("entity_2"),
                "relation_12",
            ),
            Relation::new(
                Entity::new("entity_2"),
                Entity::new("entity_3"),
                "relation_23",
            ),
        ],
    );

    let serialized = knowledge_graph.to_json_string();
    let should_be_json_str = r#"{"entities":["entity_1","entity_2","entity_3"],"relations":[{"head":"entity_1","tail":"entity_2","relation":"relation_12"},{"head":"entity_2","tail":"entity_3","relation":"relation_23"}]}"#;
    assert_eq!(serialized.as_str(), should_be_json_str);
}

#[test]
fn test_new_rejects_dangling_relation() {
    let entities = vec![Entity::new("a"), Entity::new("b")];
    let bad = Relation::new(Entity::new("a"), Entity::new("c"), "r");
    let result = KnowledgeGraph::new(entities, vec![bad.clone()]);
    match result {
        Err(KgError::Invariant(rel)) => assert_eq!(rel, bad),
        other => panic!("expected an invariant error, got {:?}", other),
    }
}

#[test]
fn test_new_accepts_valid_relations() {
    let entities = vec![Entity::new("a"), Entity::new("b")];
    let rel = Relation::new(Entity::new("a"), Entity::new("b"), "r");
    let graph = KnowledgeGraph::new(entities, vec![rel]).unwrap();
    assert_eq!(graph.entities().len(), 2);
    assert_eq!(graph.relations().len(), 1);
}

#[test]
fn test_parse_rejects_malformed_document() {
    assert!(matches!(
        KnowledgeGraph::parse("not json at all"),
        Err(KgError::Parse)
    ));
    assert!(matches!(
        KnowledgeGraph::parse(r#"{"entities":[}"#),
        Err(KgError::Parse)
    ));
}

#[test]
fn test_parse_rejects_dangling_endpoint() {
    let json = r#"{"entities":["a"],"relations":[{"head":"a","tail":"ghost","relation":"r"}]}"#;
    assert!(matches!(
        KnowledgeGraph::parse(json),
        Err(KgError::Invariant(_))
    ));
}

#[test]
fn test_add_new_relation_checks_endpoints() {
    let mut graph = KnowledgeGraph::new_unchecked(vec![Entity::new("a")], vec![]);
    graph.add_new_edge(Entity::new("b"));
    assert!(graph
        .add_new_relation(Relation::new(Entity::new("a"), Entity::new("b"), "r"))
        .is_ok());
    assert!(graph
        .add_new_relation(Relation::new(Entity::new("a"), Entity::new("zz"), "r"))
        .is_err());
    assert_eq!(graph.relations().len(), 1);
}

#[test]
fn test_canonical_form_is_stable() {
    let json = r#" { "entities" : [ "x" , "y" ] , "relations" : [ ] } "#;
    let canonical = KnowledgeGraph::parse(json).unwrap().to_json_string();
    assert_eq!(canonical.as_str(), r#"{"entities":["x","y"],"relations":[]}"#);
    let again = KnowledgeGraph::parse(&canonical).unwrap().to_json_string();
    assert_eq!(again, canonical);
}

#[test]
fn test_from_triples_collates_neighborhood() {
    let rows = vec![
        ("A".to_string(), "B".to_string(), "r".to_string()),
        ("A".to_string(), "C".to_string(), "q".to_string()),
    ];
    let graph = KnowledgeGraph::from_triples(&rows);
    assert_eq!(
        graph.to_json_string().as_str(),
        r#"{"entities":["A","B","C"],"relations":[{"head":"A","tail":"B","relation":"r"},{"head":"A","tail":"C","relation":"q"}]}"#
    );
    for rel in graph.relations() {
        assert_eq!(rel.head().name(), "A");
    }
    let tails: Vec<&str> = graph.relations().iter().map(|r| r.tail().name()).collect();
    assert_eq!(tails, vec!["B", "C"]);
}
