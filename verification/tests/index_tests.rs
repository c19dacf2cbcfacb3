use cdks::index::top_k_indices;
use cdks::types::related_knowledge_data;
use cdks::types::OpenAiModelParams;
use cdks::types::OpenAiRequest;
use cdks::types::ProcessChunkResponse;
use cdks::VectorIndex;

fn vector_of(value: f32) -> Vec<f32> {
    vec![value; 384]
}

#[test]
fn test_index_insert_and_reset_order() {
    let mut index: VectorIndex<Vec<f32>> = VectorIndex::new();
    assert!(index.insert(0, vector_of(0.5)));
    assert!(index.insert(1, vector_of(1.5)));
    assert!(index.insert(2, vector_of(2.5)));
    assert!(!index.insert(1, vector_of(9.9)));
    assert_eq!(index.len(), 3);

    let drained = index.reset();
    assert_eq!(drained.len(), 3);
    assert_eq!(drained[0][0], 0.5);
    assert_eq!(drained[1][0], 1.5);
    assert_eq!(drained[2][0], 2.5);
    assert_eq!(index.len(), 0);

    let empty_scores: Vec<i64> = Vec::new();
    assert!(top_k_indices(&empty_scores, 4).is_empty());
    assert!(index.insert(7, vector_of(7.0)));
    assert_eq!(index.len(), 1);
}

#[test]
fn test_top_k_counts_and_order() {
    let scores: Vec<i64> = vec![50, 10, 50, 30];
    assert_eq!(top_k_indices(&scores, 2), vec![0, 2]);
    assert_eq!(top_k_indices(&scores, 10), vec![0, 2, 3, 1]);
    assert!(top_k_indices(&scores, 0).is_empty());
    assert_eq!(top_k_indices(&scores, 4).len(), 4);
}

#[test]
fn test_top_k_scores_non_increasing() {
    let scores: Vec<i64> = vec![-5, 100, 3, 3, 99];
    let picked = top_k_indices(&scores, 5);
    for pair in picked.windows(2) {
        assert!(scores[pair[0]] >= scores[pair[1]]);
    }
    assert_eq!(picked.len(), scores.len().min(5));
}

#[test]
fn test_closest_chunk_id_scenario() {
    let mut index: VectorIndex<Vec<f32>> = VectorIndex::new();
    assert!(index.insert(0, vector_of(0.1)));
    assert!(index.insert(1, vector_of(0.2)));
    assert!(index.insert(2, vector_of(0.3)));
    assert!(index.insert(3, vector_of(0.4)));

    let scores: Vec<i64> = vec![120_000, 250_000, 310_000, 980_000];
    let picked = top_k_indices(&scores, 1);
    let ids = index.ids_at(&picked);
    assert_eq!(ids, vec![3]);
}

#[test]
fn test_embedding_dimension_constant() {
    assert_eq!(cdks::EMBEDDING_DIM, 384);
    assert_eq!(vector_of(0.0).len(), cdks::EMBEDDING_DIM);
}

#[test]
fn test_openai_body_json() {
    let request = OpenAiRequest {
        prompt: "hello".to_string(),
        params: OpenAiModelParams {
            model: "gpt-3.5".to_string(),
            max_tokens: 256,
            temperature: None,
            top_k: None,
            top_p: Some("0.9".to_string()),
        },
    };
    assert_eq!(
        request.body_json().as_str(),
        r#"{"max_tokens":256,"messages":[{"content":"You are an helpful digital assistant","role":"system"},{"content":"hello","role":"user"}],"model":"gpt-3.5","temperature":null,"top_p":0.9}"#
    );
}

#[test]
fn test_openai_body_json_with_all_params() {
    let request = OpenAiRequest {
        prompt: "p".to_string(),
        params: OpenAiModelParams {
            model: "m".to_string(),
            max_tokens: 1,
            temperature: Some("0.5".to_string()),
            top_k: Some("40".to_string()),
            top_p: None,
        },
    };
    assert_eq!(
        request.body_json().as_str(),
        r#"{"max_tokens":1,"messages":[{"content":"You are an helpful digital assistant","role":"system"},{"content":"p","role":"user"}],"model":"m","temperature":0.5,"top_k":40}"#
    );
}

#[test]
fn test_related_knowledge_data() {
    assert_eq!(
        related_knowledge_data(&vec![3]).as_str(),
        r#"{"knowledge_graph_chunks":[3]}"#
    );
    assert_eq!(
        related_knowledge_data(&vec![]).as_str(),
        r#"{"knowledge_graph_chunks":[]}"#
    );
}

#[test]
fn test_process_chunk_response_success() {
    let response = ProcessChunkResponse::success();
    assert!(response.is_success);
    assert_eq!(response.hash, [0u8; 32]);
    assert!(response.error_message.is_none());
}
