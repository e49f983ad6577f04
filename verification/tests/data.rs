use cissp_coach::data::{import_batch, import_question, import_stats, import_tier, ImportedBatch, ImportedQuestion};

fn empty_question() -> ImportedQuestion {
    ImportedQuestion {
        id: None,
        domain: None,
        subtopic: None,
        difficulty: None,
        question: None,
        options_json: "null".to_string(),
        correct: None,
        explanation: None,
        user_answer: None,
        is_correct: None,
        answered_at: None,
        created_at: None,
        batch_id: None,
    }
}

#[test]
fn imported_question_defaults() {
    let r = import_question(empty_question(), 1234);
    assert!(r.id.starts_with("q-"));
    assert_eq!(r.id.len(), 34);
    assert_eq!(r.domain, 0);
    assert_eq!(r.difficulty, 1);
    assert_eq!(r.question, "");
    assert_eq!(r.correct, "");
    assert_eq!(r.options_json, "null");
    assert_eq!(r.is_correct, None);
    assert_eq!(r.created_at, 1234);
    assert_eq!(r.batch_id, "imported");
    let mut q = empty_question();
    q.id = Some(String::new());
    assert!(import_question(q, 0).id.starts_with("q-"));
}

#[test]
fn imported_question_keeps_given_fields() {
    let mut q = empty_question();
    q.id = Some("q-abc".to_string());
    q.domain = Some(4);
    q.difficulty = Some(3);
    q.question = Some("stem".to_string());
    q.correct = Some("C".to_string());
    q.is_correct = Some(true);
    q.user_answer = Some("C".to_string());
    q.answered_at = Some(77);
    q.created_at = Some(55);
    q.batch_id = Some("b-1".to_string());
    let r = import_question(q, 1234);
    assert_eq!(r.id, "q-abc");
    assert_eq!(r.domain, 4);
    assert_eq!(r.difficulty, 3);
    assert_eq!(r.question, "stem");
    assert_eq!(r.is_correct, Some(1));
    assert_eq!(r.user_answer.as_deref(), Some("C"));
    assert_eq!(r.answered_at, Some(77));
    assert_eq!(r.created_at, 55);
    assert_eq!(r.batch_id, "b-1");
    let mut q = empty_question();
    q.is_correct = Some(false);
    assert_eq!(import_question(q, 0).is_correct, Some(0));
}

#[test]
fn imported_tiers_are_clamped() {
    assert_eq!(import_tier(None), 1);
    assert_eq!(import_tier(Some(0)), 1);
    assert_eq!(import_tier(Some(3)), 3);
    assert_eq!(import_tier(Some(9)), 4);
    assert_eq!(import_tier(Some(-5)), 1);
}

#[test]
fn imported_stats_default_to_zero() {
    assert_eq!(import_stats(None, None, None), (0, 0, "[]".to_string()));
    assert_eq!(import_stats(Some(5), Some(2), Some("[1,0]".to_string())), (5, 2, "[1,0]".to_string()));
}

#[test]
fn imported_batch_defaults() {
    let b = ImportedBatch {
        id: None,
        created_at: None,
        distribution_json: None,
        difficulty_json: None,
        question_ids_json: None,
        tier_changes_json: None,
        current_idx: None,
        finished: None,
    };
    let r = import_batch(b, 99);
    assert_eq!(r.id, "imported");
    assert_eq!(r.created_at, 99);
    assert_eq!(r.distribution_json, "{}");
    assert_eq!(r.difficulty_json, "{}");
    assert_eq!(r.question_ids_json, "[]");
    assert_eq!(r.tier_changes_json, None);
    assert_eq!(r.current_idx, 0);
    assert_eq!(r.finished, 0);
    let b = ImportedBatch {
        id: Some("b-9".to_string()),
        created_at: Some(5),
        distribution_json: Some("{\"1\":6}".to_string()),
        difficulty_json: Some("{\"1\":2}".to_string()),
        question_ids_json: Some("[\"q-1\"]".to_string()),
        tier_changes_json: Some("{}".to_string()),
        current_idx: Some(3),
        finished: Some(true),
    };
    let r = import_batch(b, 99);
    assert_eq!(r.id, "b-9");
    assert_eq!(r.created_at, 5);
    assert_eq!(r.question_ids_json, "[\"q-1\"]");
    assert_eq!(r.tier_changes_json.as_deref(), Some("{}"));
    assert_eq!(r.current_idx, 3);
    assert_eq!(r.finished, 1);
}
