use gaia_rag::embed::{correlate, select_batch, EmbeddingRecord};
use gaia_rag::index::{assign_point_ids, collection_name_for, IndexSession, VECTOR_DIMENSION};
use gaia_rag::query::{build_chat_messages, build_user_message, decode_answer, system_instruction};
use gaia_rag::node::GaiaError;
use gaia_rag::BATCH_SIZE;

fn three_chunks() -> Vec<String> {
    vec!["alpha".to_string(), "beta".to_string(), "gamma".to_string()]
}

#[test]
fn batch_selects_consecutive_chunks() {
    let chunks = three_chunks();
    let batch = select_batch(&chunks, 0, BATCH_SIZE);
    assert_eq!(batch, vec!["alpha", "beta", "gamma"]);
    let tail = select_batch(&chunks, 2, BATCH_SIZE);
    assert_eq!(tail, vec!["gamma"]);
    let none = select_batch(&chunks, 3, BATCH_SIZE);
    assert!(none.is_empty());
}

#[test]
fn short_response_drops_unanswered_chunks() {
    let chunks = three_chunks();
    let entries: Vec<Option<Vec<f32>>> = vec![Some(vec![1.0, 2.0]), Some(vec![3.0, 4.0])];
    let records: Vec<EmbeddingRecord<Vec<f32>>> = correlate(&chunks, entries);
    assert_eq!(records.len(), 2);
    assert_eq!(records[0].text, "alpha");
    assert_eq!(records[0].embedding, vec![1.0, 2.0]);
    assert_eq!(records[1].text, "beta");
    assert_eq!(records[1].embedding, vec![3.0, 4.0]);
}

#[test]
fn malformed_entry_drops_only_its_index() {
    let chunks = three_chunks();
    let entries: Vec<Option<Vec<f32>>> = vec![Some(vec![1.0]), None, Some(vec![3.0])];
    let records = correlate(&chunks, entries);
    assert_eq!(records.len(), 2);
    assert_eq!(records[0].text, "alpha");
    assert_eq!(records[0].embedding, vec![1.0]);
    assert_eq!(records[1].text, "gamma");
    assert_eq!(records[1].embedding, vec![3.0]);
}

#[test]
fn excess_response_entries_are_ignored() {
    let chunks = vec!["only".to_string()];
    let entries: Vec<Option<Vec<f32>>> = vec![Some(vec![1.0]), Some(vec![9.0])];
    let records = correlate(&chunks, entries);
    assert_eq!(records.len(), 1);
    assert_eq!(records[0].text, "only");
}

#[test]
fn collection_names_follow_the_clock_second() {
    assert_eq!(collection_name_for(0), "temp_0");
    assert_eq!(collection_name_for(1700000000), "temp_1700000000");
    assert_eq!(collection_name_for(42), collection_name_for(42));
    assert_ne!(collection_name_for(42), collection_name_for(43));
}

#[test]
fn index_session_uses_fixed_dimension_and_metric() {
    let session = IndexSession::new(1234567890);
    assert_eq!(session.collection_id, "temp_1234567890");
    assert_eq!(session.vector_dimension, VECTOR_DIMENSION);
    assert_eq!(session.vector_dimension, 768);
    assert_eq!(session.distance_metric, "Cosine");
}

#[test]
fn point_ids_are_sequential_in_record_order() {
    let records: Vec<EmbeddingRecord<Vec<f32>>> = vec![
        EmbeddingRecord { text: "a".to_string(), embedding: vec![0.5] },
        EmbeddingRecord { text: "b".to_string(), embedding: vec![1.5] },
        EmbeddingRecord { text: "c".to_string(), embedding: vec![2.5] },
    ];
    let points = assign_point_ids(records);
    assert_eq!(points.len(), 3);
    for (i, point) in points.iter().enumerate() {
        assert_eq!(point.id, i as u64);
    }
    assert_eq!(points[0].text, "a");
    assert_eq!(points[0].vector, vec![0.5]);
    assert_eq!(points[2].text, "c");
    assert_eq!(points[2].vector, vec![2.5]);
}

#[test]
fn chat_request_embeds_context_and_question() {
    let msgs = build_chat_messages("What is RAG?", "Retrieval helps.");
    assert_eq!(msgs.len(), 2);
    assert_eq!(msgs[0].role, "system");
    assert_eq!(msgs[0].content, system_instruction());
    assert_eq!(
        msgs[0].content,
        "You are a helpful assistant. Use the provided context to answer questions."
    );
    assert_eq!(msgs[1].role, "user");
    assert_eq!(msgs[1].content, "Context: Retrieval helps.\n\nQuestion: What is RAG?");
    assert_eq!(
        build_user_message("ctx", "q"),
        "Context: ctx\n\nQuestion: q"
    );
}

#[test]
fn answer_read_from_first_choice() {
    let body = "{\"choices\":[{\"message\":{\"content\":\"Paris is the capital.\"}}]}";
    assert_eq!(decode_answer(body).unwrap(), "Paris is the capital.");
}

#[test]
fn incomplete_reply_degrades_to_empty_answer() {
    assert_eq!(decode_answer("{}").unwrap(), "");
    assert_eq!(decode_answer("{\"choices\":[]}").unwrap(), "");
    assert_eq!(decode_answer("{\"choices\":[{\"message\":{}}]}").unwrap(), "");
    assert_eq!(decode_answer("{\"choices\":[{\"message\":{\"content\":42}}]}").unwrap(), "");
    assert_eq!(decode_answer("[1,2,3]").unwrap(), "");
}

#[test]
fn unparseable_reply_is_a_parse_error() {
    let err = decode_answer("not json at all").unwrap_err();
    assert!(matches!(err, GaiaError::ParseError(_)));
    let msg = err.message();
    assert!(msg.starts_with("Parse error: "));
}
