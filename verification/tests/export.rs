use cissp_coach::data::{import_batch, import_question, BatchRecord, QuestionRecord};
use cissp_coach::export::{
    export_batch, export_chat_message, export_domain_map, export_dump, export_question, export_stats,
    export_tier,
};
use cissp_coach::records::{imported_batch, imported_question, imported_stats, imported_tier, member_values};
use serde_json::Value;

fn record() -> QuestionRecord {
    QuestionRecord {
        id: "q-1".to_string(),
        domain: 3,
        subtopic: Some("PKI".to_string()),
        difficulty: 2,
        question: "Stem?".to_string(),
        options_json: r#"{"A":"a","B":"b","C":"c","D":"d"}"#.to_string(),
        correct: "B".to_string(),
        explanation: None,
        user_answer: Some("C".to_string()),
        is_correct: Some(0),
        answered_at: Some(77),
        created_at: 55,
        batch_id: "b-1".to_string(),
    }
}

#[test]
fn exported_question_has_the_dump_shape() {
    let v = export_question(&record());
    assert_eq!(v["id"], "q-1");
    assert_eq!(v["domain"], 3);
    assert_eq!(v["subtopic"], "PKI");
    assert_eq!(v["options"]["B"], "b");
    assert_eq!(v["explanation"], Value::Null);
    assert_eq!(v["userAnswer"], "C");
    assert_eq!(v["isCorrect"], false);
    assert_eq!(v["answeredAt"], 77);
    assert_eq!(v["createdAt"], 55);
    assert_eq!(v["batchId"], "b-1");
    let mut bad = record();
    bad.options_json = "not json".to_string();
    bad.is_correct = None;
    let v = export_question(&bad);
    assert_eq!(v["options"], Value::Null);
    assert_eq!(v["isCorrect"], Value::Null);
}

#[test]
fn import_restores_an_exported_question() {
    let q = record();
    let back = import_question(imported_question(&export_question(&q)), 999);
    assert_eq!(back.id, q.id);
    assert_eq!(back.domain, q.domain);
    assert_eq!(back.subtopic, q.subtopic);
    assert_eq!(back.difficulty, q.difficulty);
    assert_eq!(back.question, q.question);
    assert_eq!(back.options_json, q.options_json);
    assert_eq!(back.correct, q.correct);
    assert_eq!(back.explanation, q.explanation);
    assert_eq!(back.user_answer, q.user_answer);
    assert_eq!(back.is_correct, q.is_correct);
    assert_eq!(back.answered_at, q.answered_at);
    assert_eq!(back.created_at, q.created_at);
    assert_eq!(back.batch_id, q.batch_id);
}

#[test]
fn import_restores_an_exported_batch() {
    let b = BatchRecord {
        id: "b-7".to_string(),
        created_at: 12,
        distribution_json: r#"{"1":6}"#.to_string(),
        difficulty_json: r#"{"1":2}"#.to_string(),
        question_ids_json: r#"["q-1","q-2"]"#.to_string(),
        tier_changes_json: Some(r#"{"1":{"from":1,"to":2}}"#.to_string()),
        current_idx: 3,
        finished: 1,
    };
    let v = export_batch(&b);
    assert_eq!(v["finished"], true);
    let back = import_batch(imported_batch(&v), 999);
    assert_eq!(back.id, b.id);
    assert_eq!(back.created_at, b.created_at);
    assert_eq!(back.distribution_json, b.distribution_json);
    assert_eq!(back.difficulty_json, b.difficulty_json);
    assert_eq!(back.question_ids_json, b.question_ids_json);
    assert_eq!(back.tier_changes_json, b.tier_changes_json);
    assert_eq!(back.current_idx, 3);
    assert_eq!(back.finished, 1);
    let mut unparsable = b.clone();
    unparsable.question_ids_json = "oops".to_string();
    assert_eq!(export_batch(&unparsable)["questionIds"], Value::Array(vec![]));
}

#[test]
fn import_restores_an_exported_dump() {
    let stats = export_domain_map(vec![
        (3, export_stats(7, 4, "[1,0]")),
        (4, export_stats(1, 1, "garbage")),
    ]);
    let tiers = export_domain_map(vec![(2, export_tier(3)), (2, export_tier(4))]);
    let dump = export_dump(
        "2024-01-01T00:00:00Z",
        vec![export_question(&record())],
        stats,
        tiers,
        vec![],
        vec![export_chat_message("user", "hi", 5)],
    );
    assert_eq!(dump["schema"], "cissp-coach-rs-v1");
    assert_eq!(dump["exportedAt"], "2024-01-01T00:00:00Z");
    assert_eq!(dump["chatHistory"][0]["content"], "hi");
    assert_eq!(member_values(&dump, "qbank").len(), 1);
    assert_eq!(imported_stats(&dump, 3), (7, 4, "[1,0]".to_string()));
    assert_eq!(imported_stats(&dump, 4), (1, 1, "[]".to_string()));
    assert_eq!(imported_stats(&dump, 5), (0, 0, "[]".to_string()));
    assert_eq!(imported_tier(&dump, 2), 4);
    assert_eq!(imported_tier(&dump, 1), 1);
}
