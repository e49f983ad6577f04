use cissp_coach::quiz::{
    advance_index, answer_position, arrange_row, current_question_index, fresh_id, grade_answer,
    missed_by_domain, normalize_q, parse_answer_letter, question_rows, rebalance_correct_letters,
    select_new_questions, summarize_batch, AdvanceError, AnswerError, AnswerPayload, NewQuestion,
    QuestionOutcome, QuestionRow, RawQuestion,
};
use serde_json::Value;
use std::collections::BTreeMap;

fn options(a: &str, b: &str, c: &str, d: &str) -> String {
    let mut m = serde_json::Map::new();
    m.insert("A".to_string(), Value::String(a.to_string()));
    m.insert("B".to_string(), Value::String(b.to_string()));
    m.insert("C".to_string(), Value::String(c.to_string()));
    m.insert("D".to_string(), Value::String(d.to_string()));
    Value::Object(m).to_string()
}

fn item(correct_letter: char, a: &str, b: &str, c: &str, d: &str) -> QuestionRow {
    (
        "q-test".to_string(),
        1,
        None,
        1,
        "stem".to_string(),
        options(a, b, c, d),
        correct_letter.to_string(),
        None,
    )
}

#[test]
fn rebalance_distributes_correct_letters_uniformly_for_50() {
    let mut items = Vec::new();
    // Worst-case input: every question's correct answer is "A".
    for _ in 0..50 {
        items.push(item('A', "correct-text", "d1", "d2", "d3"));
    }
    rebalance_correct_letters(&mut items);
    let mut counts: BTreeMap<String, u32> = BTreeMap::new();
    for it in &items {
        *counts.entry(it.6.clone()).or_insert(0) += 1;
    }
    // 50 / 4 → 12 or 13 per letter (round-robin over 50: 13,13,12,12).
    for letter in ["A", "B", "C", "D"] {
        let c = counts.get(letter).copied().unwrap_or(0);
        assert!(
            (12..=13).contains(&c),
            "letter {letter} count {c} outside [12,13] for n=50"
        );
    }
}

#[test]
fn rebalance_preserves_correct_text_at_new_letter() {
    let mut items = vec![item('A', "THE-RIGHT-ANSWER", "wrong1", "wrong2", "wrong3")];
    rebalance_correct_letters(&mut items);
    let it = &items[0];
    let opts: Value = serde_json::from_str(&it.5).unwrap();
    // Whatever the new correct letter is, its text must still be the original correct text.
    let new_letter = &it.6;
    assert_eq!(
        opts.get(new_letter).and_then(|v| v.as_str()).unwrap(),
        "THE-RIGHT-ANSWER"
    );
    // And the four option texts remain the same set.
    let mut got: Vec<String> = ["A", "B", "C", "D"]
        .iter()
        .map(|k| opts.get(*k).and_then(|v| v.as_str()).unwrap_or("").to_string())
        .collect();
    got.sort();
    let mut want = vec![
        "THE-RIGHT-ANSWER".to_string(),
        "wrong1".to_string(),
        "wrong2".to_string(),
        "wrong3".to_string(),
    ];
    want.sort();
    assert_eq!(got, want);
}

#[test]
fn rebalance_is_a_noop_on_empty() {
    let mut items: Vec<QuestionRow> = Vec::new();
    rebalance_correct_letters(&mut items);
    assert!(items.is_empty());
}

#[test]
fn rebalance_counts_for_small_batches() {
    for n in 1..=9usize {
        let mut items: Vec<QuestionRow> = (0..n).map(|_| item('C', "x", "y", "right", "z")).collect();
        rebalance_correct_letters(&mut items);
        let mut counts = [0usize; 4];
        for it in &items {
            let l = it.6.chars().next().unwrap();
            counts[(l as u8 - b'A') as usize] += 1;
            let opts: Value = serde_json::from_str(&it.5).unwrap();
            assert_eq!(opts.get(it.6.as_str()).and_then(|v| v.as_str()), Some("right"));
        }
        for (j, c) in counts.iter().enumerate() {
            assert_eq!(*c, (n + 3 - j) / 4, "n={n} letter {j}");
        }
    }
}

#[test]
fn rebalance_leaves_unparsable_options_alone() {
    let mut items = vec![(
        "q-x".to_string(),
        2,
        Some("sub".to_string()),
        3,
        "stem".to_string(),
        "not json".to_string(),
        "B".to_string(),
        None,
    )];
    rebalance_correct_letters(&mut items);
    assert_eq!(items[0].5, "not json");
    assert_eq!(items[0].6, "B");
    assert_eq!(items[0].2.as_deref(), Some("sub"));
}

#[test]
fn normalize_q_folds_case_punctuation_and_spaces() {
    assert_eq!(normalize_q("  Hello,   World!! "), "hello world");
    assert_eq!(normalize_q("What's the\tBEST\n answer?"), "whats the best answer");
    assert_eq!(normalize_q("A - B"), "a b");
    assert_eq!(normalize_q("!!!"), "");
    assert_eq!(normalize_q(""), "");
}

#[test]
fn normalize_q_is_single_spaced_and_stable() {
    let once = normalize_q("  Which  control, FIRST?\n\tNext ");
    assert_eq!(once, "which control first next");
    assert_eq!(normalize_q(&once), once);
    assert_eq!(normalize_q("Risk-Based"), "riskbased");
    let odd = normalize_q(" \t ,, Mixed   CASE\r\n ");
    assert!(!odd.starts_with(' ') && !odd.ends_with(' ') && !odd.contains("  "));
    assert_eq!(normalize_q(&odd), odd);
}

#[test]
fn parse_answer_letter_accepts_one_letter() {
    assert_eq!(parse_answer_letter(" b "), Some('B'));
    assert_eq!(parse_answer_letter("D"), Some('D'));
    assert_eq!(parse_answer_letter("E"), None);
    assert_eq!(parse_answer_letter("AB"), None);
    assert_eq!(parse_answer_letter(""), None);
}

#[test]
fn answer_payload_choice_and_errors() {
    let p = AnswerPayload { letter: "c".to_string() };
    assert_eq!(p.choice(), Ok('C'));
    let bad = AnswerPayload { letter: "x".to_string() };
    assert_eq!(bad.choice(), Err(AnswerError::BadLetter));
    assert_eq!(AnswerError::BadLetter.message(), "letter must be one of A, B, C, D");
    assert_eq!(AnswerError::NoCurrentQuestion.message(), "no current question for this batch");
    assert_eq!(AnswerError::AlreadyAnswered.message(), "question already answered");
}

#[test]
fn answer_position_and_grading() {
    assert_eq!(answer_position(3, 10), Ok(3));
    assert_eq!(answer_position(10, 10), Err(AnswerError::NoCurrentQuestion));
    assert_eq!(grade_answer('B', &None, "B"), Ok(true));
    assert_eq!(grade_answer('B', &None, "A"), Ok(false));
    assert_eq!(
        grade_answer('B', &Some("B".to_string()), "B"),
        Err(AnswerError::AlreadyAnswered)
    );
}

#[test]
fn moving_through_a_batch() {
    assert_eq!(current_question_index(0, 3, false), Some(0));
    assert_eq!(current_question_index(3, 3, false), None);
    assert_eq!(current_question_index(1, 3, true), None);
    assert_eq!(advance_index(4, false), Ok(5));
    assert_eq!(advance_index(4, true), Err(AdvanceError::AlreadyFinished));
}

fn raw(domain: i64, difficulty: i64, correct: &str, stem: &str, opts: &str) -> RawQuestion {
    RawQuestion {
        domain: Some(domain),
        difficulty: Some(difficulty),
        correct: Some(correct.to_string()),
        question: Some(stem.to_string()),
        subtopic: Some("topic".to_string()),
        explanation: Some("because".to_string()),
        options_json: opts.to_string(),
    }
}

#[test]
fn select_new_questions_vets_and_dedupes() {
    let opts = options("a", "b", "c", "d");
    let raws = vec![
        raw(1, 2, " b ", "First stem?", &opts),
        raw(9, 2, "A", "Bad domain", &opts),
        raw(2, 5, "A", "Bad tier", &opts),
        raw(2, 2, "E", "Bad letter", &opts),
        raw(2, 2, "A", "", &opts),
        raw(2, 2, "A", "Missing option", &{
            let mut m = serde_json::Map::new();
            m.insert("A".to_string(), Value::String("a".to_string()));
            Value::Object(m).to_string()
        }),
        raw(3, 1, "C", "first STEM", &opts),
        raw(4, 4, "D", "Known already", &opts),
        raw(5, 3, "a", "Fresh one", &opts),
    ];
    let known = vec![normalize_q("Known, already!")];
    let out: Vec<NewQuestion> = select_new_questions(raws, known);
    assert_eq!(out.len(), 2);
    assert_eq!(out[0].question, "First stem?");
    assert_eq!(out[0].correct, "B");
    assert_eq!(out[0].domain, 1);
    assert_eq!(out[0].difficulty, 2);
    assert_eq!(out[0].subtopic.as_deref(), Some("topic"));
    assert_eq!(out[1].question, "Fresh one");
    assert_eq!(out[1].correct, "A");
    assert_eq!(out[1].options_json, opts);
}

#[test]
fn fresh_ids_have_prefix_and_hex_digits() {
    let a = fresh_id("q-");
    let b = fresh_id("q-");
    assert_eq!(a.len(), 34);
    assert!(a.starts_with("q-"));
    assert!(a[2..].chars().all(|c| c.is_ascii_hexdigit() && !c.is_ascii_uppercase()));
    assert_ne!(a, b);
    assert!(fresh_id("b-").starts_with("b-"));
}

#[test]
fn question_rows_carry_the_fields() {
    let q = NewQuestion {
        domain: 7,
        subtopic: None,
        difficulty: 3,
        question: "stem".to_string(),
        options_json: options("a", "b", "c", "d"),
        correct: "D".to_string(),
        explanation: Some("why".to_string()),
    };
    let rows = question_rows(vec![q.clone(), q]);
    assert_eq!(rows.len(), 2);
    assert!(rows[0].0.starts_with("q-"));
    assert_ne!(rows[0].0, rows[1].0);
    assert_eq!(rows[1].1, 7);
    assert_eq!(rows[1].3, 3);
    assert_eq!(rows[1].6, "D");
    assert_eq!(rows[1].7.as_deref(), Some("why"));
}

fn outcome(domain: u8, answered: bool, correct: bool) -> QuestionOutcome {
    QuestionOutcome { domain, answered, correct }
}

#[test]
fn summarize_batch_counts_answers() {
    let qs = vec![
        outcome(3, true, true),
        outcome(1, true, false),
        outcome(3, true, false),
        outcome(2, false, false),
        outcome(1, true, true),
    ];
    let s = summarize_batch(&qs);
    assert_eq!(s.answered, 4);
    assert_eq!(s.correct, 2);
    assert_eq!(s.per_domain.get(&1), Some(&(2, 1)));
    assert_eq!(s.per_domain.get(&3), Some(&(2, 1)));
    assert_eq!(s.per_domain.get(&2), None);
    assert_eq!(s.missed, vec![1, 2]);
    assert_eq!(missed_by_domain(&qs), vec![1, 2]);
}

#[test]
fn missed_questions_group_by_domain_stably() {
    let qs = vec![
        outcome(5, true, false),
        outcome(2, true, false),
        outcome(5, true, false),
        outcome(2, true, true),
        outcome(1, true, false),
        outcome(2, true, false),
    ];
    assert_eq!(missed_by_domain(&qs), vec![4, 1, 5, 0, 2]);
}

fn arranged_options(row: &QuestionRow) -> Vec<String> {
    let v: Value = serde_json::from_str(&row.5).unwrap();
    ["A", "B", "C", "D"]
        .iter()
        .map(|k| v[*k].as_str().unwrap().to_string())
        .collect()
}

fn sample_row(opts: String, correct: &str) -> QuestionRow {
    (
        "q1".to_string(),
        3,
        Some("sub".to_string()),
        2,
        "Which control?".to_string(),
        opts,
        correct.to_string(),
        Some("because".to_string()),
    )
}

#[test]
fn arrange_row_places_drawn_distractors() {
    let row = sample_row(options("a0", "b0", "c0", "d0"), "B");
    let new = arrange_row(row.clone(), 'D', &vec![2, 0, 1]);
    assert_eq!(arranged_options(&new), vec!["d0", "a0", "c0", "b0"]);
    assert_eq!(new.6, "D");
    assert_eq!((&new.0, new.1, &new.2, new.3, &new.4, &new.7), (&row.0, row.1, &row.2, row.3, &row.4, &row.7));

    let new = arrange_row(row.clone(), 'A', &vec![0, 1, 2]);
    assert_eq!(arranged_options(&new), vec!["b0", "a0", "c0", "d0"]);
    assert_eq!(new.6, "A");
}

#[test]
fn arrange_row_keeps_row_for_bad_order_or_options() {
    let row = sample_row(options("a0", "b0", "c0", "d0"), "C");
    assert_eq!(arrange_row(row.clone(), 'A', &vec![0, 0, 1]), row);
    assert_eq!(arrange_row(row.clone(), 'A', &vec![0, 1, 3]), row);
    assert_eq!(arrange_row(row.clone(), 'A', &vec![0, 1]), row);
    let broken = sample_row("not json".to_string(), "C");
    assert_eq!(arrange_row(broken.clone(), 'B', &vec![0, 1, 2]), broken);
}

#[test]
fn arrange_row_without_option_letter_uses_all_four() {
    let row = sample_row(options("a0", "b0", "c0", "d0"), "x");
    let new = arrange_row(row, 'B', &vec![3, 2, 1, 0]);
    assert_eq!(arranged_options(&new), vec!["d0", "", "c0", "b0"]);
    assert_eq!(new.6, "B");

    let mut m = serde_json::Map::new();
    for (k, t) in [("A", "a0"), ("B", "b0"), ("C", "c0"), ("D", "d0"), ("x", "x0")] {
        m.insert(k.to_string(), Value::String(t.to_string()));
    }
    let row = sample_row(Value::Object(m).to_string(), "x");
    let new = arrange_row(row, 'B', &vec![3, 2, 1, 0]);
    assert_eq!(arranged_options(&new), vec!["d0", "x0", "c0", "b0"]);
}
