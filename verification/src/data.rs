//! Importing a JSON dump of the database: the defaults every missing field
//! takes.
use crate::quiz::{fresh_id, is_fresh_id};
use vstd::prelude::*;
use vstd::string::{StrSliceExecFns, StringExecFns};

verus! {

broadcast use vstd::string::group_string_axioms;

/// A question of an import, field by field (`None` where missing).
#[derive(Debug, Clone)]
pub struct ImportedQuestion {
    pub id: Option<String>,
    pub domain: Option<i64>,
    pub subtopic: Option<String>,
    pub difficulty: Option<i64>,
    pub question: Option<String>,
    pub options_json: String,
    pub correct: Option<String>,
    pub explanation: Option<String>,
    pub user_answer: Option<String>,
    pub is_correct: Option<bool>,
    pub answered_at: Option<i64>,
    pub created_at: Option<i64>,
    pub batch_id: Option<String>,
}

/// A question row as stored.
#[derive(Debug, Clone)]
pub struct QuestionRecord {
    pub id: String,
    pub domain: i64,
    pub subtopic: Option<String>,
    pub difficulty: i64,
    pub question: String,
    pub options_json: String,
    pub correct: String,
    pub explanation: Option<String>,
    pub user_answer: Option<String>,
    pub is_correct: Option<i64>,
    pub answered_at: Option<i64>,
    pub created_at: i64,
    pub batch_id: String,
}

/// A batch of an import, field by field (`None` where missing).
#[derive(Debug, Clone)]
pub struct ImportedBatch {
    pub id: Option<String>,
    pub created_at: Option<i64>,
    pub distribution_json: Option<String>,
    pub difficulty_json: Option<String>,
    pub question_ids_json: Option<String>,
    pub tier_changes_json: Option<String>,
    pub current_idx: Option<i64>,
    pub finished: Option<bool>,
}

/// A batch row as stored.
#[derive(Debug, Clone)]
pub struct BatchRecord {
    pub id: String,
    pub created_at: i64,
    pub distribution_json: String,
    pub difficulty_json: String,
    pub question_ids_json: String,
    pub tier_changes_json: Option<String>,
    pub current_idx: i64,
    pub finished: i64,
}

pub open spec fn text_or(v: Option<String>, d: Seq<char>) -> Seq<char> {
    match v {
        Some(s) => s@,
        None => d,
    }
}

pub open spec fn int_or(v: Option<i64>, d: int) -> int {
    match v {
        Some(x) => x as int,
        None => d,
    }
}

fn text_or_exec(v: Option<String>, d: &str) -> (r: String)
    ensures
        r@ == text_or(v, d@),
{
    match v {
        Some(s) => s,
        None => String::from_str(d),
    }
}

/// `r` is the imported question `q` with its defaults filled in (the id
/// aside).
pub open spec fn imports_question(r: QuestionRecord, q: ImportedQuestion, now: i64) -> bool {
    &&& text_or(q.id, Seq::empty()).len() > 0 ==> r.id@ == text_or(q.id, Seq::empty())
    &&& r.domain == int_or(q.domain, 0)
    &&& r.subtopic == q.subtopic
    &&& r.difficulty == int_or(q.difficulty, 1)
    &&& r.question@ == text_or(q.question, Seq::empty())
    &&& r.options_json == q.options_json
    &&& r.correct@ == text_or(q.correct, Seq::empty())
    &&& r.explanation == q.explanation
    &&& r.user_answer == q.user_answer
    &&& r.is_correct == match q.is_correct {
        Some(b) => Some(if b { 1i64 } else { 0i64 }),
        None => None::<i64>,
    }
    &&& r.answered_at == q.answered_at
    &&& r.created_at == int_or(q.created_at, now as int)
    &&& r.batch_id@ == text_or(q.batch_id, "imported"@)
}

/// `r` is the imported batch `b` with its defaults filled in.
pub open spec fn imports_batch(r: BatchRecord, b: ImportedBatch, now: i64) -> bool {
    &&& r.id@ == text_or(b.id, "imported"@)
    &&& r.created_at == int_or(b.created_at, now as int)
    &&& r.distribution_json@ == text_or(b.distribution_json, "{}"@)
    &&& r.difficulty_json@ == text_or(b.difficulty_json, "{}"@)
    &&& r.question_ids_json@ == text_or(b.question_ids_json, "[]"@)
    &&& r.tier_changes_json == b.tier_changes_json
    &&& r.current_idx == int_or(b.current_idx, 0)
    &&& r.finished == match b.finished {
        Some(true) => 1i64,
        _ => 0i64,
    }
}

/// Fill in an imported question: a missing or empty id becomes a fresh `q-` id,
/// a missing domain 0, difficulty 1, stem and answer empty, creation time
/// `now`, batch `imported`.
pub fn import_question(q: ImportedQuestion, now: i64) -> (r: QuestionRecord)
    ensures
        text_or(q.id, Seq::empty()).len() == 0 ==> is_fresh_id(r.id@, "q-"@),
        text_or(q.id, Seq::empty()).len() > 0 ==> r.id@ == text_or(q.id, Seq::empty()),
        r.domain == int_or(q.domain, 0),
        r.subtopic == q.subtopic,
        r.difficulty == int_or(q.difficulty, 1),
        r.question@ == text_or(q.question, Seq::empty()),
        r.options_json == q.options_json,
        r.correct@ == text_or(q.correct, Seq::empty()),
        r.explanation == q.explanation,
        r.user_answer == q.user_answer,
        r.is_correct == match q.is_correct {
            Some(b) => Some(if b { 1i64 } else { 0i64 }),
            None => None::<i64>,
        },
        r.answered_at == q.answered_at,
        r.created_at == int_or(q.created_at, now as int),
        r.batch_id@ == text_or(q.batch_id, "imported"@),
        imports_question(r, q, now),
{
    let ghost q0 = q;
    proof {
        reveal_strlit("");
    }
    let id = text_or_exec(q.id, "");
    let id = if id.as_str().unicode_len() == 0 {
        fresh_id("q-")
    } else {
        id
    };
    let r = QuestionRecord {
        id,
        domain: match q.domain {
            Some(d) => d,
            None => 0,
        },
        subtopic: q.subtopic,
        difficulty: match q.difficulty {
            Some(d) => d,
            None => 1,
        },
        question: text_or_exec(q.question, ""),
        options_json: q.options_json,
        correct: text_or_exec(q.correct, ""),
        explanation: q.explanation,
        user_answer: q.user_answer,
        is_correct: match q.is_correct {
            Some(b) => Some(if b { 1 } else { 0 }),
            None => None,
        },
        answered_at: q.answered_at,
        created_at: match q.created_at {
            Some(t) => t,
            None => now,
        },
        batch_id: text_or_exec(q.batch_id, "imported"),
    };
    assert(r.subtopic == q0.subtopic);
    assert(r.explanation == q0.explanation);
    assert(r.user_answer == q0.user_answer);
    assert(r.answered_at == q0.answered_at);
    assert(text_or(q0.id, Seq::empty()).len() > 0 ==> r.id@ == text_or(q0.id, Seq::empty()));
    assert(r.domain == int_or(q0.domain, 0));
    assert(r.difficulty == int_or(q0.difficulty, 1));
    assert(r.question@ == text_or(q0.question, Seq::empty()));
    assert(r.options_json == q0.options_json);
    assert(r.correct@ == text_or(q0.correct, Seq::empty()));
    assert(r.is_correct == match q0.is_correct {
        Some(b) => Some(if b { 1i64 } else { 0i64 }),
        None => None::<i64>,
    });
    assert(r.created_at == int_or(q0.created_at, now as int));
    assert(r.batch_id@ == text_or(q0.batch_id, "imported"@));
    assert(imports_question(r, q0, now));
    r
}

/// An imported tier: 1 when missing, kept within 1..=4.
pub fn import_tier(t: Option<i64>) -> (r: i64)
    ensures
        r == ({
            let v = int_or(t, 1);
            if v < 1 {
                1
            } else if v > 4 {
                4
            } else {
                v
            }
        }),
        1 <= r <= 4,
{
    let v = match t {
        Some(v) => v,
        None => 1,
    };
    if v < 1 {
        1
    } else if v > 4 {
        4
    } else {
        v
    }
}

/// Imported statistics of a domain: attempted, correct and the recent
/// window (JSON); zero and `[]` where missing.
pub fn import_stats(attempted: Option<i64>, correct: Option<i64>, recent_json: Option<String>) -> (r: (i64, i64, String))
    ensures
        r.0 == int_or(attempted, 0),
        r.1 == int_or(correct, 0),
        r.2@ == text_or(recent_json, "[]"@),
{
    (
        match attempted {
            Some(a) => a,
            None => 0,
        },
        match correct {
            Some(c) => c,
            None => 0,
        },
        text_or_exec(recent_json, "[]"),
    )
}

/// Fill in an imported batch: id `imported`, creation time `now`, empty
/// distribution and tiers, no questions, position 0, not finished.
pub fn import_batch(b: ImportedBatch, now: i64) -> (r: BatchRecord)
    ensures
        r.id@ == text_or(b.id, "imported"@),
        r.created_at == int_or(b.created_at, now as int),
        r.distribution_json@ == text_or(b.distribution_json, "{}"@),
        r.difficulty_json@ == text_or(b.difficulty_json, "{}"@),
        r.question_ids_json@ == text_or(b.question_ids_json, "[]"@),
        r.tier_changes_json == b.tier_changes_json,
        r.current_idx == int_or(b.current_idx, 0),
        r.finished == match b.finished {
            Some(true) => 1i64,
            _ => 0i64,
        },
        imports_batch(r, b, now),
{
    BatchRecord {
        id: text_or_exec(b.id, "imported"),
        created_at: match b.created_at {
            Some(t) => t,
            None => now,
        },
        distribution_json: text_or_exec(b.distribution_json, "{}"),
        difficulty_json: text_or_exec(b.difficulty_json, "{}"),
        question_ids_json: text_or_exec(b.question_ids_json, "[]"),
        tier_changes_json: b.tier_changes_json,
        current_idx: match b.current_idx {
            Some(i) => i,
            None => 0,
        },
        finished: match b.finished {
            Some(true) => 1,
            _ => 0,
        },
    }
}

} // verus!
