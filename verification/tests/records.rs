use cissp_coach::llm_json::parse_model_output;
use cissp_coach::records::{
    imported_active_batch, imported_batch, imported_question, imported_stats, imported_tier,
    member_values, question_ids, question_ids_text, question_values, raw_question, raw_questions,
    recent_outcomes, recent_outcomes_text,
};
use serde_json::Value;

fn parse(s: &str) -> Value {
    serde_json::from_str(s).unwrap()
}

#[test]
fn model_output_is_cleaned_parsed_or_salvaged() {
    let v = parse_model_output("```json\n{\"questions\": []}\n```").unwrap();
    assert_eq!(v, parse("{\"questions\": []}"));
    let v = parse_model_output("Here you go: {\"a\": 1} thanks").unwrap();
    assert_eq!(v, parse("{\"a\": 1}"));
    let cut = "{\"questions\": [{\"domain\": 1, \"correct\": \"A\"}, {\"domain\": 2, \"corr";
    let v = parse_model_output(cut).unwrap();
    assert_eq!(v.get("questions").and_then(|q| q.as_array()).map(|a| a.len()), Some(1));
    assert!(parse_model_output("no json at all").is_none());
}

#[test]
fn questions_come_from_the_envelope_or_a_bare_array() {
    let env = parse(r#"{"questions": [{"domain": 1}, {"domain": 2}]}"#);
    assert_eq!(question_values(&env).len(), 2);
    let bare = parse(r#"[{"domain": 3}]"#);
    assert_eq!(question_values(&bare).len(), 1);
    let neither = parse(r#"{"questions": 5}"#);
    assert!(question_values(&neither).is_empty());
    assert!(question_values(&parse("7")).is_empty());
}

#[test]
fn raw_questions_read_each_member() {
    let q = parse(
        r#"{"domain": 4, "difficulty": 2, "correct": " b", "question": "Stem?", "subtopic": "VPN",
            "explanation": "Because.", "options": {"A": "a", "B": "b", "C": "c", "D": "d"}}"#,
    );
    let r = raw_question(&q);
    assert_eq!(r.domain, Some(4));
    assert_eq!(r.difficulty, Some(2));
    assert_eq!(r.correct.as_deref(), Some(" b"));
    assert_eq!(r.question.as_deref(), Some("Stem?"));
    assert_eq!(r.subtopic.as_deref(), Some("VPN"));
    assert_eq!(r.explanation.as_deref(), Some("Because."));
    assert_eq!(r.options_json, r#"{"A":"a","B":"b","C":"c","D":"d"}"#);
    let r = raw_question(&parse(r#"{"domain": "4", "correct": 3}"#));
    assert_eq!(r.domain, None);
    assert_eq!(r.correct, None);
    assert_eq!(r.options_json, "null");
    let all = raw_questions(&parse(r#"{"questions": [{"domain": 1}, {"domain": 8}]}"#));
    assert_eq!(all.iter().map(|r| r.domain).collect::<Vec<_>>(), vec![Some(1), Some(8)]);
}

#[test]
fn imported_questions_accept_both_spellings() {
    let q = parse(
        r#"{"id": "q-1", "domain": 2, "question": "S", "options": {"A": "x"}, "correct": "A",
            "userAnswer": "B", "is_correct": false, "answered_at": 9, "createdAt": 8, "batch_id": "b-1"}"#,
    );
    let r = imported_question(&q);
    assert_eq!(r.id.as_deref(), Some("q-1"));
    assert_eq!(r.domain, Some(2));
    assert_eq!(r.user_answer.as_deref(), Some("B"));
    assert_eq!(r.is_correct, Some(false));
    assert_eq!(r.answered_at, Some(9));
    assert_eq!(r.created_at, Some(8));
    assert_eq!(r.batch_id.as_deref(), Some("b-1"));
    assert_eq!(r.options_json, r#"{"A":"x"}"#);
    assert_eq!(r.difficulty, None);
}

#[test]
fn imported_batches_and_tables() {
    let b = parse(
        r#"{"id": "b-1", "created_at": 5, "distribution": {"1": 6}, "difficulty_by_domain": {"1": 2},
            "questionIds": ["q-1"], "tierChanges": null, "idx": 4, "finished": true}"#,
    );
    let r = imported_batch(&b);
    assert_eq!(r.id.as_deref(), Some("b-1"));
    assert_eq!(r.created_at, Some(5));
    assert_eq!(r.distribution_json.as_deref(), Some(r#"{"1":6}"#));
    assert_eq!(r.difficulty_json.as_deref(), Some(r#"{"1":2}"#));
    assert_eq!(r.question_ids_json.as_deref(), Some(r#"["q-1"]"#));
    assert_eq!(r.tier_changes_json.as_deref(), Some("null"));
    assert_eq!(r.current_idx, Some(4));
    assert_eq!(r.finished, Some(true));

    let body = parse(
        r#"{"qbank": [1, 2, 3], "domainStats": {"3": {"attempted": 7, "correct": 4, "recentCorrect": [1,0]}},
            "difficulty": {"2": 9, "5": 3}, "currentBatch": {"batchId": "b-7"}}"#,
    );
    assert_eq!(member_values(&body, "qbank").len(), 3);
    assert!(member_values(&body, "batches").is_empty());
    assert_eq!(imported_stats(&body, 3), (7, 4, "[1,0]".to_string()));
    assert_eq!(imported_stats(&body, 4), (0, 0, "[]".to_string()));
    assert_eq!(imported_tier(&body, 2), 4);
    assert_eq!(imported_tier(&body, 5), 3);
    assert_eq!(imported_tier(&body, 6), 1);
    assert_eq!(imported_active_batch(&body).as_deref(), Some("b-7"));
    assert_eq!(imported_active_batch(&parse("{}")), None);
}

#[test]
fn stored_lists_round_trip() {
    let ids = question_ids(r#"["q-1","q-2"]"#);
    assert_eq!(ids, vec!["q-1".to_string(), "q-2".to_string()]);
    assert!(question_ids("not json").is_empty());
    assert_eq!(question_ids_text(&ids), r#"["q-1","q-2"]"#);
    let w = recent_outcomes("[1,0,1]");
    assert_eq!(w, vec![1, 0, 1]);
    assert!(recent_outcomes("[1,300]").is_empty());
    assert_eq!(recent_outcomes_text(&w), "[1,0,1]");
}
