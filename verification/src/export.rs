//! Writing the database out as a JSON dump: the questions, batches,
//! statistics, tiers and chat, each in the shape an import reads back.
use crate::data::{imports_batch, imports_question, BatchRecord, ImportedBatch, ImportedQuestion, QuestionRecord};
use crate::llm_json::{parse_json, parsed_json};
use crate::records::{
    json_array, json_bool, json_boolean, json_i64, json_insert, json_int, json_is_object, json_list,
    json_member, json_null, json_object_new, json_str, json_string, json_text, member_bool,
    member_i64, member_str, opt_view, position_member, reads_imported_batch,
    reads_imported_question,
};
use crate::text::{decimal, decimal_text, digit_char};
use vstd::prelude::*;

verus! {

broadcast use vstd::string::group_string_axioms;

// ─── Stored JSON columns ───────────────────────────────────────────────────

/// `o` is the JSON column `text` parsed, or `null` when it does not parse.
pub open spec fn exports_column(o: serde_json::Value, text: Seq<char>) -> bool {
    match parsed_json(text) {
        Some(x) => o == x,
        None => json_text(o) == "null"@ && json_array(o) is None,
    }
}

/// `o` is the JSON column `text` parsed, or `[]` when it does not parse.
pub open spec fn exports_list_column(o: serde_json::Value, text: Seq<char>) -> bool {
    match parsed_json(text) {
        Some(x) => o == x,
        None => json_array(o) == Some(Seq::<serde_json::Value>::empty()),
    }
}

fn column_or_null(text: &str) -> (o: serde_json::Value)
    ensures
        exports_column(o, text@),
{
    match parse_json(text) {
        Some(x) => x,
        None => json_null(),
    }
}

fn column_or_empty_list(text: &str) -> (o: serde_json::Value)
    ensures
        exports_list_column(o, text@),
{
    match parse_json(text) {
        Some(x) => x,
        None => json_list(Vec::new()),
    }
}

fn opt_string_value(o: &Option<String>) -> (v: serde_json::Value)
    ensures
        json_str(v) == opt_view(*o),
{
    match o {
        Some(s) => json_string(s.as_str()),
        None => json_null(),
    }
}

fn opt_int_value(o: Option<i64>) -> (v: serde_json::Value)
    ensures
        json_i64(v) == o,
{
    match o {
        Some(i) => json_int(i),
        None => json_null(),
    }
}

// ─── Questions ──────────────────────────────────────────────────────────────

/// `v` is the dump of the stored question `q`: the JSON columns parsed,
/// `isCorrect` as a boolean, absent values as `null`.
pub open spec fn exports_question(v: serde_json::Value, q: QuestionRecord) -> bool {
    &&& json_is_object(v)
    &&& member_str(v, "id"@) == Some(q.id@)
    &&& member_i64(v, "domain"@) == Some(q.domain)
    &&& member_str(v, "subtopic"@) == opt_view(q.subtopic)
    &&& member_i64(v, "difficulty"@) == Some(q.difficulty)
    &&& member_str(v, "question"@) == Some(q.question@)
    &&& json_member(v, "options"@) matches Some(o) && exports_column(o, q.options_json@)
    &&& member_str(v, "correct"@) == Some(q.correct@)
    &&& member_str(v, "explanation"@) == opt_view(q.explanation)
    &&& json_member(v, "userAnswer"@) is Some
    &&& member_str(v, "userAnswer"@) == opt_view(q.user_answer)
    &&& json_member(v, "isCorrect"@) is Some
    &&& member_bool(v, "isCorrect"@) == match q.is_correct {
        Some(x) => Some(x != 0),
        None => None::<bool>,
    }
    &&& json_member(v, "answeredAt"@) is Some
    &&& member_i64(v, "answeredAt"@) == q.answered_at
    &&& json_member(v, "createdAt"@) is Some
    &&& member_i64(v, "createdAt"@) == Some(q.created_at)
    &&& json_member(v, "batchId"@) is Some
    &&& member_str(v, "batchId"@) == Some(q.batch_id@)
}

/// The dump of one stored question.
pub fn export_question(q: &QuestionRecord) -> (v: serde_json::Value)
    ensures
        exports_question(v, *q),
{
    proof {
        reveal_strlit("id");
        assert("id"@.len() == 2 && "id"@[0] == 'i');
        reveal_strlit("domain");
        assert("domain"@.len() == 6 && "domain"@[0] == 'd');
        reveal_strlit("subtopic");
        assert("subtopic"@.len() == 8 && "subtopic"@[0] == 's');
        reveal_strlit("difficulty");
        assert("difficulty"@.len() == 10 && "difficulty"@[0] == 'd');
        reveal_strlit("question");
        assert("question"@.len() == 8 && "question"@[0] == 'q');
        reveal_strlit("options");
        assert("options"@.len() == 7 && "options"@[0] == 'o');
        reveal_strlit("correct");
        assert("correct"@.len() == 7 && "correct"@[0] == 'c');
        reveal_strlit("explanation");
        assert("explanation"@.len() == 11 && "explanation"@[0] == 'e');
        reveal_strlit("userAnswer");
        assert("userAnswer"@.len() == 10 && "userAnswer"@[0] == 'u');
        reveal_strlit("isCorrect");
        assert("isCorrect"@.len() == 9 && "isCorrect"@[0] == 'i');
        reveal_strlit("answeredAt");
        assert("answeredAt"@.len() == 10 && "answeredAt"@[0] == 'a');
        reveal_strlit("createdAt");
        assert("createdAt"@.len() == 9 && "createdAt"@[0] == 'c');
        reveal_strlit("batchId");
        assert("batchId"@.len() == 7 && "batchId"@[0] == 'b');
    }
    let mut v = json_object_new();
    json_insert(&mut v, "id", json_string(q.id.as_str()));
    json_insert(&mut v, "domain", json_int(q.domain));
    json_insert(&mut v, "subtopic", opt_string_value(&q.subtopic));
    json_insert(&mut v, "difficulty", json_int(q.difficulty));
    json_insert(&mut v, "question", json_string(q.question.as_str()));
    json_insert(&mut v, "options", column_or_null(q.options_json.as_str()));
    json_insert(&mut v, "correct", json_string(q.correct.as_str()));
    json_insert(&mut v, "explanation", opt_string_value(&q.explanation));
    json_insert(&mut v, "userAnswer", opt_string_value(&q.user_answer));
    let is_correct = match q.is_correct {
        Some(x) => json_boolean(x != 0),
        None => json_null(),
    };
    json_insert(&mut v, "isCorrect", is_correct);
    json_insert(&mut v, "answeredAt", opt_int_value(q.answered_at));
    json_insert(&mut v, "createdAt", json_int(q.created_at));
    json_insert(&mut v, "batchId", json_string(q.batch_id.as_str()));
    v
}

/// Import restores an exported question: reading the dump of `q` back and
/// filling in defaults gives `q` again, up to `is_correct` written as 0 or 1
/// and the options written back as JSON text.
pub proof fn lemma_import_restores_question(
    q: QuestionRecord,
    v: serde_json::Value,
    r: ImportedQuestion,
    rec: QuestionRecord,
    now: i64,
)
    requires
        exports_question(v, q),
        reads_imported_question(r, v),
        imports_question(rec, r, now),
        q.id@.len() > 0,
    ensures
        rec.id@ == q.id@,
        rec.domain == q.domain,
        opt_view(rec.subtopic) == opt_view(q.subtopic),
        rec.difficulty == q.difficulty,
        rec.question@ == q.question@,
        json_member(v, "options"@) matches Some(o) && rec.options_json@ == json_text(o)
            && exports_column(o, q.options_json@),
        rec.correct@ == q.correct@,
        opt_view(rec.explanation) == opt_view(q.explanation),
        opt_view(rec.user_answer) == opt_view(q.user_answer),
        rec.is_correct == match q.is_correct {
            Some(x) => Some(if x != 0 { 1i64 } else { 0i64 }),
            None => None::<i64>,
        },
        rec.answered_at == q.answered_at,
        rec.created_at == q.created_at,
        rec.batch_id@ == q.batch_id@,
{
}

// ─── Batches ────────────────────────────────────────────────────────────────

/// `v` is the dump of the stored batch `b`: the JSON columns parsed,
/// `finished` as a boolean.
pub open spec fn exports_batch(v: serde_json::Value, b: BatchRecord) -> bool {
    &&& json_is_object(v)
    &&& member_str(v, "id"@) == Some(b.id@)
    &&& json_member(v, "createdAt"@) is Some
    &&& member_i64(v, "createdAt"@) == Some(b.created_at)
    &&& json_member(v, "distribution"@) matches Some(o) && exports_column(o, b.distribution_json@)
    &&& json_member(v, "difficultyByDomain"@) matches Some(o) && exports_column(
        o,
        b.difficulty_json@,
    )
    &&& json_member(v, "questionIds"@) matches Some(o) && exports_list_column(
        o,
        b.question_ids_json@,
    )
    &&& json_member(v, "tierChanges"@) matches Some(o) && match b.tier_changes_json {
        Some(t) => exports_column(o, t@),
        None => json_text(o) == "null"@,
    }
    &&& json_member(v, "currentIdx"@) is Some
    &&& member_i64(v, "currentIdx"@) == Some(b.current_idx)
    &&& member_bool(v, "finished"@) == Some(b.finished != 0)
}

/// The dump of one stored batch.
pub fn export_batch(b: &BatchRecord) -> (v: serde_json::Value)
    ensures
        exports_batch(v, *b),
{
    proof {
        reveal_strlit("id");
        assert("id"@.len() == 2 && "id"@[0] == 'i');
        reveal_strlit("createdAt");
        assert("createdAt"@.len() == 9 && "createdAt"@[0] == 'c');
        reveal_strlit("distribution");
        assert("distribution"@.len() == 12 && "distribution"@[0] == 'd');
        reveal_strlit("difficultyByDomain");
        assert("difficultyByDomain"@.len() == 18 && "difficultyByDomain"@[0] == 'd');
        reveal_strlit("questionIds");
        assert("questionIds"@.len() == 11 && "questionIds"@[0] == 'q');
        reveal_strlit("tierChanges");
        assert("tierChanges"@.len() == 11 && "tierChanges"@[0] == 't');
        reveal_strlit("currentIdx");
        assert("currentIdx"@.len() == 10 && "currentIdx"@[0] == 'c');
        reveal_strlit("finished");
        assert("finished"@.len() == 8 && "finished"@[0] == 'f');
    }
    let mut v = json_object_new();
    json_insert(&mut v, "id", json_string(b.id.as_str()));
    json_insert(&mut v, "createdAt", json_int(b.created_at));
    json_insert(&mut v, "distribution", column_or_null(b.distribution_json.as_str()));
    json_insert(&mut v, "difficultyByDomain", column_or_null(b.difficulty_json.as_str()));
    json_insert(&mut v, "questionIds", column_or_empty_list(b.question_ids_json.as_str()));
    let tier_changes = match &b.tier_changes_json {
        Some(t) => column_or_null(t.as_str()),
        None => json_null(),
    };
    json_insert(&mut v, "tierChanges", tier_changes);
    json_insert(&mut v, "currentIdx", json_int(b.current_idx));
    json_insert(&mut v, "finished", json_boolean(b.finished != 0));
    v
}

/// Import restores an exported batch: its id, creation time, position and
/// whether it finished come back (`finished` as 0 or 1), and each JSON
/// column comes back as the JSON text of what was exported for it.
pub proof fn lemma_import_restores_batch(
    b: BatchRecord,
    v: serde_json::Value,
    r: ImportedBatch,
    rec: BatchRecord,
    now: i64,
)
    requires
        exports_batch(v, b),
        reads_imported_batch(r, v),
        imports_batch(rec, r, now),
    ensures
        rec.id@ == b.id@,
        rec.created_at == b.created_at,
        rec.current_idx == b.current_idx,
        rec.finished == if b.finished != 0 { 1i64 } else { 0i64 },
        json_member(v, "distribution"@) matches Some(o) && rec.distribution_json@ == json_text(o),
        json_member(v, "difficultyByDomain"@) matches Some(o) && rec.difficulty_json@ == json_text(o),
        json_member(v, "questionIds"@) matches Some(o) && rec.question_ids_json@ == json_text(o),
        json_member(v, "tierChanges"@) matches Some(o) && opt_view(rec.tier_changes_json) == Some(
            json_text(o),
        ),
{
}

// ─── Statistics, tiers and chat ────────────────────────────────────────────

/// `e` is the dump of a domain's statistics row.
pub open spec fn exports_stats(e: serde_json::Value, attempted: i64, correct: i64, recent: Seq<char>) -> bool {
    &&& json_is_object(e)
    &&& member_i64(e, "attempted"@) == Some(attempted)
    &&& member_i64(e, "correct"@) == Some(correct)
    &&& json_member(e, "recentCorrect"@) matches Some(o) && exports_list_column(o, recent)
}

/// The dump of a domain's statistics: attempted and correct answers and the
/// recent outcomes (`[]` when the stored text does not parse).
pub fn export_stats(attempted: i64, correct: i64, recent_json: &str) -> (e: serde_json::Value)
    ensures
        exports_stats(e, attempted, correct, recent_json@),
{
    proof {
        reveal_strlit("attempted");
        assert("attempted"@.len() == 9 && "attempted"@[0] == 'a');
        reveal_strlit("correct");
        assert("correct"@.len() == 7 && "correct"@[0] == 'c');
        reveal_strlit("recentCorrect");
        assert("recentCorrect"@.len() == 13 && "recentCorrect"@[0] == 'r');
    }
    let mut e = json_object_new();
    json_insert(&mut e, "attempted", json_int(attempted));
    json_insert(&mut e, "correct", json_int(correct));
    json_insert(&mut e, "recentCorrect", column_or_empty_list(recent_json));
    e
}

proof fn lemma_decimal_len(n: nat)
    ensures
        n < 10 ==> decimal_text(n).len() == 1,
        n >= 10 ==> decimal_text(n).len() >= 2,
    decreases n,
{
    if n >= 10 {
        lemma_decimal_len(n / 10);
    }
}

/// Different numbers are written differently.
pub proof fn lemma_decimal_injective(a: nat, b: nat)
    requires
        decimal_text(a) == decimal_text(b),
    ensures
        a == b,
    decreases a,
{
    lemma_decimal_len(a);
    lemma_decimal_len(b);
    if a < 10 && b < 10 {
        assert(decimal_text(a)[0] == digit_char(a as int));
        assert(decimal_text(b)[0] == digit_char(b as int));
    } else if a >= 10 && b >= 10 {
        let da = decimal_text(a);
        let db = decimal_text(b);
        assert(da.last() == digit_char((a % 10) as int));
        assert(db.last() == digit_char((b % 10) as int));
        assert(da.drop_last() =~= decimal_text(a / 10));
        assert(db.drop_last() =~= decimal_text(b / 10));
        lemma_decimal_injective(a / 10, b / 10);
    }
}

/// Whether no later row than `i` names the same domain.
pub open spec fn last_of_domain<T>(rows: Seq<(u8, T)>, i: int) -> bool {
    forall|j: int| i < j < rows.len() ==> (#[trigger] rows[j]).0 != rows[i].0
}

/// An object keyed by domain number (in decimal), from `(domain, value)`
/// rows; a later row of the same domain replaces an earlier one.
pub fn export_domain_map(rows: Vec<(u8, serde_json::Value)>) -> (v: serde_json::Value)
    ensures
        json_is_object(v),
        forall|i: int|
            0 <= i < rows@.len() && last_of_domain(rows@, i) ==> json_member(
                v,
                decimal_text(#[trigger] rows@[i].0 as nat),
            ) == Some(rows@[i].1),
{
    let ghost all = rows@;
    let n = rows.len();
    let mut rows = rows;
    let mut v = json_object_new();
    let mut k: usize = 0;
    assert(rows@.skip(0) =~= all);
    while k < n
        invariant
            k <= n,
            n == all.len(),
            rows@ == all.skip(k as int),
            json_is_object(v),
            forall|i: int|
                0 <= i < k && (forall|j: int| i < j < k ==> (#[trigger] all[j]).0 != all[i].0)
                    ==> json_member(v, decimal_text(#[trigger] all[i].0 as nat)) == Some(all[i].1),
        decreases n - k,
    {
        let (d, x) = rows.remove(0);
        assert((d, x) == all[k as int]);
        assert(rows@ =~= all.skip(k + 1));
        let key = decimal(d as u64);
        let ghost before = v;
        json_insert(&mut v, key.as_str(), x);
        assert forall|i: int|
            0 <= i < k + 1 && (forall|j: int| i < j < k + 1 ==> (#[trigger] all[j]).0 != all[i].0)
                implies json_member(v, decimal_text(#[trigger] all[i].0 as nat)) == Some(all[i].1) by {
            if i < k {
                assert(all[k as int].0 != all[i].0);
                if decimal_text(all[i].0 as nat) == key@ {
                    lemma_decimal_injective(all[i].0 as nat, d as nat);
                }
            }
        }
        k = k + 1;
    }
    v
}

/// The dump of a domain's stored tier.
pub fn export_tier(tier: i64) -> (v: serde_json::Value)
    ensures
        json_i64(v) == Some(tier),
{
    json_int(tier)
}

/// The dump of a chat message.
pub fn export_chat_message(role: &str, content: &str, created_at: i64) -> (v: serde_json::Value)
    ensures
        json_is_object(v),
        member_str(v, "role"@) == Some(role@),
        member_str(v, "content"@) == Some(content@),
        member_i64(v, "createdAt"@) == Some(created_at),
{
    proof {
        reveal_strlit("role");
        assert("role"@.len() == 4 && "role"@[0] == 'r');
        reveal_strlit("content");
        assert("content"@.len() == 7 && "content"@[0] == 'c');
        reveal_strlit("createdAt");
        assert("createdAt"@.len() == 9 && "createdAt"@[0] == 'c');
    }
    let mut v = json_object_new();
    json_insert(&mut v, "role", json_string(role));
    json_insert(&mut v, "content", json_string(content));
    json_insert(&mut v, "createdAt", json_int(created_at));
    v
}

/// Name of the dump format.
pub const DUMP_SCHEMA: &'static str = "cissp-coach-rs-v1";

/// The whole dump: its format, when it was written, and the tables.
pub fn export_dump(
    exported_at: &str,
    qbank: Vec<serde_json::Value>,
    domain_stats: serde_json::Value,
    difficulty: serde_json::Value,
    batches: Vec<serde_json::Value>,
    chat: Vec<serde_json::Value>,
) -> (v: serde_json::Value)
    ensures
        json_is_object(v),
        member_str(v, "schema"@) == Some(DUMP_SCHEMA@),
        member_str(v, "exportedAt"@) == Some(exported_at@),
        json_member(v, "qbank"@) matches Some(q) && json_array(q) == Some(qbank@),
        json_member(v, "domainStats"@) == Some(domain_stats),
        json_member(v, "difficulty"@) == Some(difficulty),
        json_member(v, "batches"@) matches Some(b) && json_array(b) == Some(batches@),
        json_member(v, "chatHistory"@) matches Some(c) && json_array(c) == Some(chat@),
{
    proof {
        reveal_strlit("schema");
        assert("schema"@.len() == 6 && "schema"@[0] == 's');
        reveal_strlit("exportedAt");
        assert("exportedAt"@.len() == 10 && "exportedAt"@[0] == 'e');
        reveal_strlit("qbank");
        assert("qbank"@.len() == 5 && "qbank"@[0] == 'q');
        reveal_strlit("domainStats");
        assert("domainStats"@.len() == 11 && "domainStats"@[0] == 'd');
        reveal_strlit("difficulty");
        assert("difficulty"@.len() == 10 && "difficulty"@[0] == 'd');
        reveal_strlit("batches");
        assert("batches"@.len() == 7 && "batches"@[0] == 'b');
        reveal_strlit("chatHistory");
        assert("chatHistory"@.len() == 11 && "chatHistory"@[0] == 'c');
    }
    let mut v = json_object_new();
    json_insert(&mut v, "schema", json_string(DUMP_SCHEMA));
    json_insert(&mut v, "exportedAt", json_string(exported_at));
    json_insert(&mut v, "qbank", json_list(qbank));
    json_insert(&mut v, "domainStats", domain_stats);
    json_insert(&mut v, "difficulty", difficulty);
    json_insert(&mut v, "batches", json_list(batches));
    json_insert(&mut v, "chatHistory", json_list(chat));
    v
}

} // verus!
