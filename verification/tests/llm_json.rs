use cissp_coach::llm_json::{clean_llm_json, parsed_progress, salvage_truncated_json};
use serde_json::Value;

#[test]
fn salvage_recovers_envelope_truncated_mid_array() {
    // Two complete questions, third was cut off mid-string.
    let truncated = r#"{
  "questions": [
    {"domain":1,"subtopic":"x","difficulty":1,"question":"q1","options":{"A":"a","B":"b","C":"c","D":"d"},"correct":"A","explanation":"e"},
    {"domain":2,"subtopic":"y","difficulty":2,"question":"q2","options":{"A":"a","B":"b","C":"c","D":"d"},"correct":"B","explanation":"e"},
    {"domain":3,"subtopic":"z","difficulty":3,"question":"q3 with a partial "#;
    // Sanity check: this is not valid JSON yet.
    assert!(serde_json::from_str::<Value>(truncated).is_err());
    let recovered = salvage_truncated_json(truncated).expect("should salvage envelope");
    let arr = recovered.get("questions").and_then(|v| v.as_array()).unwrap();
    assert_eq!(arr.len(), 2);
    assert_eq!(arr[0].get("question").and_then(|v| v.as_str()), Some("q1"));
    assert_eq!(arr[1].get("question").and_then(|v| v.as_str()), Some("q2"));
}

#[test]
fn salvage_recovers_bare_array_truncated_mid_array() {
    let truncated = r#"[
  {"domain":1,"correct":"A"},
  {"domain":2,"correct":"B"},
  {"domain":3,"correc"#;
    assert!(serde_json::from_str::<Value>(truncated).is_err());
    let recovered = salvage_truncated_json(truncated).expect("should salvage array");
    let arr = recovered.as_array().unwrap();
    assert_eq!(arr.len(), 2);
}

#[test]
fn salvage_returns_none_when_no_complete_objects() {
    // Truncated before any object closed.
    let truncated = r#"{"questions": [{"domain":1, "correct":"A""#;
    assert!(salvage_truncated_json(truncated).is_none());
}

#[test]
fn salvage_handles_escaped_quotes_in_strings() {
    // Question text contains an escaped quote and a brace inside a string.
    let truncated = r#"{
  "questions": [
    {"domain":1,"question":"He said \"hello {world}\" loudly","correct":"A"},
    {"domain":2,"question":"q2 partial "#;
    let recovered = salvage_truncated_json(truncated).expect("should salvage");
    let arr = recovered.get("questions").and_then(|v| v.as_array()).unwrap();
    assert_eq!(arr.len(), 1);
    assert_eq!(
        arr[0].get("question").and_then(|v| v.as_str()),
        Some("He said \"hello {world}\" loudly")
    );
}

// ─── Further cases ──────────────────────────────────────────────────────────

#[test]
fn salvage_rejects_a_prefix_without_envelope_or_array() {
    assert!(salvage_truncated_json(r#"{"a": {"b": 1}, "c": [ {"#).is_none());
}

#[test]
fn clean_strips_fences_and_prose() {
    assert_eq!(clean_llm_json("```json\n{\"a\": 1}\n```"), "{\"a\": 1}");
    assert_eq!(clean_llm_json("  ```\n{\"a\": 1}```  "), "{\"a\": 1}");
    assert_eq!(clean_llm_json("Here you go: {\"a\": 1} enjoy"), "{\"a\": 1}");
    assert_eq!(clean_llm_json("  {\"a\": 1}  "), "{\"a\": 1}");
    assert_eq!(clean_llm_json("no json here"), "no json here");
    assert_eq!(clean_llm_json("```json```json\n[1]\n```"), "[1]");
}

#[test]
fn progress_counts_correct_keys_up_to_total() {
    let buf = r#"[{"correct":"A"},{"correct":"B"},{"corr"#;
    assert_eq!(parsed_progress(buf, 50), 2);
    assert_eq!(parsed_progress(buf, 1), 1);
    assert_eq!(parsed_progress("", 50), 0);
}
