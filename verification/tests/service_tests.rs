use cdks::message::check_query_dimension;
use cdks::utils::extract_kg_span;
use cdks::utils::format_triplet;
use cdks::utils::generate_answer;
use cdks::utils::kg_to_query_json;
use cdks::utils::retrieve_prompt;
use cdks::unescape::unescape_json;
use cdks::KgError;
use cdks::Message;

#[test]
fn message_to_string() {
    let message = Message::ChunkText(0, "Hello world !".to_string());
    assert_eq!(
        String::from(r#"{"chunk_text":[0,"Hello world !"]}"#),
        message.to_json_string()
    );
    let message = Message::ProcessChunk("Hello world!".to_string());
    assert_eq!(
        String::from(r#"{"process_chunk":"Hello world!"}"#),
        message.to_json_string()
    );
    let message = Message::Send(
        0,
        vec!["1.0".to_string(), "2.0".to_string(), "3.0".to_string()],
    );
    assert_eq!(
        String::from(r#"{"send":[0,[1.0,2.0,3.0]]}"#),
        message.to_json_string()
    );
    let message = Message::Reset;
    assert_eq!(String::from(r#""reset""#), message.to_json_string());
    let message = Message::Stop;
    assert_eq!(String::from(r#""stop""#), message.to_json_string());

    let send_string = r#"{"chunk_text":[1,"The complexity of an integrated circuit is bounded by physical limitations on the number of transistors that can be put onto one chip, the number of package terminations that can connect the processor to other parts of the system, the number of interconnections it is possible to make on the chip, and the heat that the chip can dissipate. Advancing technology makes more complex and powerful chips feasible to manufacture. A minimal hypothetical microprocessor might include only an arithmetic logic unit (ALU), and a control logic section. The ALU performs addition, subtraction, and operations such as AND or OR. Each operation of the ALU sets one or more flags in a status register, which indicate the results of the last operation (zero value, negative number, overflow, or others). The control logic retrieves instruction codes from memory and initiates the sequence of operations required for the ALU to carry out the instruction. A single operation code might affect many individual data paths, registers, and other elements of the processor. As integrated circuit technology advanced, it was feasible to manufacture more and more complex processors on a single chip. The size of data objects became larger; allowing more transistors on a chip allowed word sizes to increase from 4- and 8-bit words up to today's 64-bit words. Additional features were added to the processor architecture; more on-chip registers sped up programs, and complex instructions could be used to make more compact programs. Floating-point arithmetic, for example, was often not available on 8-bit microprocessors, but had to be carried out in software. Integration of the floating-point unit, first as a separate integrated circuit and then as part of the same microprocessor chip, sped up floating-point calculations. Occasionally, physical limitations of integrated circuits made such practices as a bit slice approach necessary. Instead of processing all of a long word on one integrated circuit, multiple circuits in parallel processed subsets of each word. While this required extra logic to handle, for example, carry and overflow within each slice, the result was a system that could handle, for example, 32-bit words using integrated circuits with a capacity for only four bits each. The ability to put large numbers of transistors on one chip makes it feasible to integrate memory on the same die as the processor. This CPU cache has the advantage of faster access than off-chip memory and increases the processing speed of the system for many applications. Processor clock frequency has increased more rapidly than external memory speed, so cache memory is necessary if the processor is not to be delayed by slower external memory."]}"#;
    let message = Message::ChunkText(1, "The complexity of an integrated circuit is bounded by physical limitations on the number of transistors that can be put onto one chip, the number of package terminations that can connect the processor to other parts of the system, the number of interconnections it is possible to make on the chip, and the heat that the chip can dissipate. Advancing technology makes more complex and powerful chips feasible to manufacture. A minimal hypothetical microprocessor might include only an arithmetic logic unit (ALU), and a control logic section. The ALU performs addition, subtraction, and operations such as AND or OR. Each operation of the ALU sets one or more flags in a status register, which indicate the results of the last operation (zero value, negative number, overflow, or others). The control logic retrieves instruction codes from memory and initiates the sequence of operations required for the ALU to carry out the instruction. A single operation code might affect many individual data paths, registers, and other elements of the processor. As integrated circuit technology advanced, it was feasible to manufacture more and more complex processors on a single chip. The size of data objects became larger; allowing more transistors on a chip allowed word sizes to increase from 4- and 8-bit words up to today's 64-bit words. Additional features were added to the processor architecture; more on-chip registers sped up programs, and complex instructions could be used to make more compact programs. Floating-point arithmetic, for example, was often not available on 8-bit microprocessors, but had to be carried out in software. Integration of the floating-point unit, first as a separate integrated circuit and then as part of the same microprocessor chip, sped up floating-point calculations. Occasionally, physical limitations of integrated circuits made such practices as a bit slice approach necessary. Instead of processing all of a long word on one integrated circuit, multiple circuits in parallel processed subsets of each word. While this required extra logic to handle, for example, carry and overflow within each slice, the result was a system that could handle, for example, 32-bit words using integrated circuits with a capacity for only four bits each. The ability to put large numbers of transistors on one chip makes it feasible to integrate memory on the same die as the processor. This CPU cache has the advantage of faster access than off-chip memory and increases the processing speed of the system for many applications. Processor clock frequency has increased more rapidly than external memory speed, so cache memory is necessary if the processor is not to be delayed by slower external memory.".to_string());
    assert_eq!(send_string, message.to_json_string());

    let message = Message::GetChunkId("Hello world!".to_string(), 4);
    assert_eq!(
        String::from(r#"{"get_chunk_id":["Hello world!",4]}"#),
        message.to_json_string()
    );
}

#[test]
fn test_message_parse_roundtrip() {
    let samples = vec![
        Message::ChunkText(7, "Alice knows Bob.".to_string()),
        Message::Reset,
        Message::Send(2, vec!["1.5".to_string(), "-3.25e-2".to_string()]),
        Message::ProcessChunk("a chunk".to_string()),
        Message::Stop,
        Message::GetChunkId("a query".to_string(), 3),
    ];
    for message in samples {
        let text = message.to_json_string();
        let parsed = Message::parse(&text).expect("canonical envelope must parse");
        assert_eq!(parsed, message);
    }
}

#[test]
fn test_message_parse_rejects_garbage() {
    assert!(Message::parse("").is_none());
    assert!(Message::parse(r#""unknown""#).is_none());
    assert!(Message::parse(r#"{"chunk_text":[99999999999,"x"]}"#).is_none());
    assert!(Message::parse(r#"{"send":[1,[]]}"#).is_some());
    assert!(Message::parse(r#"{"send":[1,[,]]}"#).is_none());
}

#[test]
fn test_check_query_dimension() {
    let good: Vec<String> = (0..384).map(|_| "0.0".to_string()).collect();
    assert!(check_query_dimension(&good).is_ok());
    let bad: Vec<String> = vec!["1.0".to_string(), "2.0".to_string(), "3.0".to_string()];
    assert!(check_query_dimension(&bad).is_err());
}

#[test]
fn test_unescape_json_applies_all_rules() {
    let input = r#"{{"entities":[\"a\"]}}"#;
    assert_eq!(unescape_json(input).as_str(), r#"{"entities":["a"]}"#);
    let with_newlines = "a\\nb";
    assert_eq!(unescape_json(with_newlines).as_str(), "ab");
    let double_escaped = r#"\\"x"#;
    assert_eq!(unescape_json(double_escaped).as_str(), r#""x"#);
}

#[test]
fn test_unescape_idempotent_on_ordinary_text() {
    let inputs = vec![
        r#"{{"entities":["Alice","Bob"],"relations":[]}}"#,
        "plain text with no escapes",
        r#"already { unescaped } body"#,
    ];
    for input in inputs {
        let once = unescape_json(input);
        let twice = unescape_json(&once);
        assert_eq!(twice, once);
    }
}

#[test]
fn test_extract_kg_span_first_match() {
    let answer = r#"Sure! <kg>{"entities":["A"],"relations":[]}</kg> hope it helps"#;
    assert_eq!(
        extract_kg_span(answer).unwrap().as_str(),
        r#"{"entities":["A"],"relations":[]}"#
    );
    let two = "<kg>first</kg> and <kg>second</kg>";
    assert_eq!(extract_kg_span(two).unwrap().as_str(), "first");
}

#[test]
fn test_extract_kg_span_absent() {
    assert!(extract_kg_span("no tags here").is_none());
    assert!(extract_kg_span("<kg>never closed").is_none());
}

#[test]
fn test_kg_to_query_json() {
    let kg = r#"{{"entities":["Alice","Bob"],"relations":[{{"head":"Alice","tail":"Bob","relation":"knows"}}]}}"#;
    let query = kg_to_query_json(kg, 7).unwrap();
    assert_eq!(
        query.as_str(),
        r#"{"builder":{"nodes":[{"label":"Alice","properties":[["query_id","7"]]},{"label":"Bob","properties":[["query_id","7"]]}],"edges":[{"source":"Alice","target":"Bob","edge_relation":"knows"}],"return_fields":[],"limit":null}}"#
    );
}

#[test]
fn test_kg_to_query_json_rejects_unknown_entity() {
    let kg = r#"{"entities":["Alice"],"relations":[{"head":"Alice","tail":"Eve","relation":"knows"}]}"#;
    assert!(matches!(kg_to_query_json(kg, 1), Err(KgError::Invariant(_))));
    assert!(matches!(kg_to_query_json("not a graph", 1), Err(KgError::Parse)));
}

#[test]
fn test_ingest_happy_path_produces_build_query() {
    let llm_answer = r#"Here you go: <kg>{"entities":["Alice","Bob"],"relations":[{"head":"Alice","tail":"Bob","relation":"knows"}]}</kg>"#;
    let span = extract_kg_span(llm_answer).unwrap();
    let query_doc = kg_to_query_json(&span, 0).unwrap();
    assert!(query_doc.contains(r#"{"label":"Alice","properties":[["query_id","0"]]}"#));
    assert!(query_doc.contains(r#"{"label":"Bob","properties":[["query_id","0"]]}"#));
    assert!(query_doc.contains(r#""edge_relation":"knows""#));

    let graph = cdks::KnowledgeGraph::parse(&span).unwrap();
    let builder = graph.to_cypher_query_builder(&vec![(
        "query_id".to_string(),
        "0".to_string(),
    )]);
    let (query, params) = builder.build();
    assert_eq!(
        query,
        "CREATE (n0:Alice { query_id:$param_0 })\nCREATE (n1:Bob { query_id:$param_1 })\nWITH n0, n1 MATCH (n0:Alice), (n1:Bob) CREATE (n0)-[:knows]->(n1)\n"
    );
    assert_eq!(
        params,
        vec![
            ("param_0".to_string(), "0".to_string()),
            ("param_1".to_string(), "0".to_string())
        ]
    );
}

#[test]
fn test_invalid_llm_output_skips_graph_write() {
    let llm_answer = "I could not produce a knowledge graph, sorry.";
    assert!(extract_kg_span(llm_answer).is_none());
}

#[test]
fn test_retrieve_prompt_shape() {
    let prompt = retrieve_prompt("Alice knows Bob.");
    assert!(prompt.starts_with("Text: Alice knows Bob. \n"));
    assert!(prompt.contains("enclosed in <kg></kg> tags"));
    assert!(prompt.contains(r#"<kg>{{"entities":["entity_1","entity_2","entity_3"]"#));
    assert!(prompt.ends_with("Your answer: "));
}

#[test]
fn test_generate_answer_shape() {
    let prompt = generate_answer(
        "Who owns the house?",
        vec!["Alice | OWNS | House".to_string(), "Bob | RENTS | Flat".to_string()],
    );
    assert!(prompt.starts_with(
        "Knowledge Graph: Alice | OWNS | House, Bob | RENTS | Flat\n\n"
    ));
    assert!(prompt.contains("Question: Who owns the house?\n\n"));
    assert!(prompt.contains("Step 2:"));
}

#[test]
fn test_format_triplet() {
    assert_eq!(format_triplet("A", "r", "B").as_str(), "A | r | B");
}
