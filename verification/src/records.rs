//! Reading JSON documents into the library's records: the questions a model
//! returned, the rows of an imported dump, and the small JSON lists kept in
//! the database.
use crate::data::{import_stats, import_tier, ImportedBatch, ImportedQuestion};
use crate::quiz::RawQuestion;
use crate::text::{decimal, decimal_text};
use vstd::prelude::*;

verus! {

broadcast use vstd::string::group_string_axioms;

// ─── Reading a `serde_json::Value` ─────────────────────────────────────────

/// The member `key` of `v` as `Value::get` reads it: `None` when `v` is no
/// object or has no such member.
pub uninterp spec fn json_member(v: serde_json::Value, key: Seq<char>) -> Option<serde_json::Value>;

/// The elements of `v` as `Value::as_array` reads them: `None` when `v` is
/// no array.
pub uninterp spec fn json_array(v: serde_json::Value) -> Option<Seq<serde_json::Value>>;

/// Element `i` of `v` as `Value::get` reads it with an index: `None` when
/// `v` is no array or has no element `i`.
pub uninterp spec fn json_element(v: serde_json::Value, i: usize) -> Option<serde_json::Value>;

/// `v` as `Value::as_i64` reads it: `None` when `v` is no integer in the
/// range of `i64`.
pub uninterp spec fn json_i64(v: serde_json::Value) -> Option<i64>;

/// `v` as `Value::as_str` reads it: `None` when `v` is no string.
pub uninterp spec fn json_str(v: serde_json::Value) -> Option<Seq<char>>;

/// `v` as `Value::as_bool` reads it: `None` when `v` is no boolean.
pub uninterp spec fn json_bool(v: serde_json::Value) -> Option<bool>;

/// The compact JSON text `Value::to_string` writes for `v`.
pub uninterp spec fn json_text(v: serde_json::Value) -> Seq<char>;

/// The list a JSON text holds as `serde_json::from_str::<Vec<String>>`
/// reads it: `None` when the text is not a JSON array of strings.
pub uninterp spec fn json_string_list(text: Seq<char>) -> Option<Seq<Seq<char>>>;

/// The list a JSON text holds as `serde_json::from_str::<Vec<u8>>` reads
/// it: `None` when the text is not a JSON array of integers in 0..=255.
pub uninterp spec fn json_byte_list(text: Seq<char>) -> Option<Seq<u8>>;

/// The JSON text `serde_json::to_string` writes for a list of strings.
pub uninterp spec fn string_list_text(items: Seq<Seq<char>>) -> Seq<char>;

/// The numbers of `items` in decimal, separated by commas.
pub open spec fn joined_decimals(items: Seq<u8>) -> Seq<char>
    decreases items.len(),
{
    if items.len() == 0 {
        Seq::empty()
    } else if items.len() == 1 {
        decimal_text(items[0] as nat)
    } else {
        joined_decimals(items.drop_last()) + seq![','] + decimal_text(items.last() as nat)
    }
}

/// The compact JSON text of a list of bytes: `[`, the numbers in decimal
/// separated by commas, `]`.
pub open spec fn byte_list_text(items: Seq<u8>) -> Seq<char> {
    seq!['['] + joined_decimals(items) + seq![']']
}

/// Whether `v` is a JSON object.
pub uninterp spec fn json_is_object(v: serde_json::Value) -> bool;

pub open spec fn opt_view(o: Option<String>) -> Option<Seq<char>> {
    match o {
        Some(s) => Some(s@),
        None => None,
    }
}

// ─── Building a `serde_json::Value` ────────────────────────────────────────

/// `Value::Object(Map::new())`: an object without members.
#[verifier::external_body]
pub(crate) fn json_object_new() -> (v: serde_json::Value)
    ensures
        json_is_object(v),
        forall|k: Seq<char>| #[trigger] json_member(v, k) is None,
{
    serde_json::Value::Object(serde_json::Map::new())
}

/// `Map::insert` on the members of an object: `key` now holds `x`, every
/// other member stays as it was.
#[verifier::external_body]
pub(crate) fn json_insert(v: &mut serde_json::Value, key: &str, x: serde_json::Value)
    requires
        json_is_object(*old(v)),
    ensures
        json_is_object(*final(v)),
        json_member(*final(v), key@) == Some(x),
        forall|k: Seq<char>| k != key@ ==> #[trigger] json_member(*final(v), k) == json_member(*old(v), k),
{
    if let Some(m) = v.as_object_mut() {
        m.insert(key.to_string(), x);
    }
}

/// `Value::String`: a JSON string.
#[verifier::external_body]
pub(crate) fn json_string(s: &str) -> (v: serde_json::Value)
    ensures
        json_str(v) == Some(s@),
        json_i64(v) is None,
        json_bool(v) is None,
{
    serde_json::Value::String(s.to_string())
}

/// `Value::from(i64)`: a JSON integer.
#[verifier::external_body]
pub(crate) fn json_int(i: i64) -> (v: serde_json::Value)
    ensures
        json_i64(v) == Some(i),
        json_str(v) is None,
        json_bool(v) is None,
{
    serde_json::Value::from(i)
}

/// `Value::Bool`: a JSON boolean.
#[verifier::external_body]
pub(crate) fn json_boolean(b: bool) -> (v: serde_json::Value)
    ensures
        json_bool(v) == Some(b),
        json_str(v) is None,
        json_i64(v) is None,
{
    serde_json::Value::Bool(b)
}

/// `Value::Null`, written `null`.
#[verifier::external_body]
pub(crate) fn json_null() -> (v: serde_json::Value)
    ensures
        json_str(v) is None,
        json_i64(v) is None,
        json_bool(v) is None,
        json_array(v) is None,
        json_text(v) == "null"@,
{
    serde_json::Value::Null
}

/// `Value::Array`: a JSON array of `items`.
#[verifier::external_body]
pub(crate) fn json_list(items: Vec<serde_json::Value>) -> (v: serde_json::Value)
    ensures
        json_array(v) == Some(items@),
{
    serde_json::Value::Array(items)
}

/// `Value::get(key)`, the member cloned.
#[verifier::external_body]
pub(crate) fn json_get(v: &serde_json::Value, key: &str) -> (r: Option<serde_json::Value>)
    ensures
        r == json_member(*v, key@),
{
    v.get(key).cloned()
}

/// `Value::get(i)` with an index, the element cloned.
#[verifier::external_body]
pub(crate) fn json_at(v: &serde_json::Value, i: usize) -> (r: Option<serde_json::Value>)
    ensures
        r == json_element(*v, i),
{
    v.get(i).cloned()
}

/// `Value::as_array`, the elements cloned.
#[verifier::external_body]
pub(crate) fn json_as_array(v: &serde_json::Value) -> (r: Option<Vec<serde_json::Value>>)
    ensures
        match r {
            Some(a) => json_array(*v) == Some(a@),
            None => json_array(*v) is None,
        },
{
    v.as_array().cloned()
}

/// `Value::as_i64`.
#[verifier::external_body]
pub(crate) fn json_as_i64(v: &serde_json::Value) -> (r: Option<i64>)
    ensures
        r == json_i64(*v),
{
    v.as_i64()
}

/// `Value::as_str`, the string copied.
#[verifier::external_body]
pub(crate) fn json_as_str(v: &serde_json::Value) -> (r: Option<String>)
    ensures
        opt_view(r) == json_str(*v),
{
    v.as_str().map(|s| s.to_string())
}

/// `Value::as_bool`.
#[verifier::external_body]
pub(crate) fn json_as_bool(v: &serde_json::Value) -> (r: Option<bool>)
    ensures
        r == json_bool(*v),
{
    v.as_bool()
}

/// `Value::to_string`: the compact JSON text of `v`.
#[verifier::external_body]
pub(crate) fn json_to_text(v: &serde_json::Value) -> (r: String)
    ensures
        r@ == json_text(*v),
{
    v.to_string()
}

/// `serde_json::from_str::<Vec<String>>`, with the error dropped.
#[verifier::external_body]
fn parse_string_list(text: &str) -> (r: Option<Vec<String>>)
    ensures
        match r {
            Some(l) => json_string_list(text@) == Some(l@.map_values(|s: String| s@)),
            None => json_string_list(text@) is None,
        },
{
    serde_json::from_str::<Vec<String>>(text).ok()
}

/// `serde_json::from_str::<Vec<u8>>`, with the error dropped.
#[verifier::external_body]
fn parse_byte_list(text: &str) -> (r: Option<Vec<u8>>)
    ensures
        match r {
            Some(l) => json_byte_list(text@) == Some(l@),
            None => json_byte_list(text@) is None,
        },
{
    serde_json::from_str::<Vec<u8>>(text).ok()
}

/// `serde_json::to_string` of a list of strings (it cannot fail).
#[verifier::external_body]
fn write_string_list(items: &Vec<String>) -> (r: String)
    ensures
        r@ == string_list_text(items@.map_values(|s: String| s@)),
{
    serde_json::to_string(items).unwrap_or_default()
}

/// `serde_json::to_string` of a list of bytes (it cannot fail): the compact
/// writer puts `[`, each number in decimal with `,` between them, and `]`.
#[verifier::external_body]
fn write_byte_list(items: &Vec<u8>) -> (r: String)
    ensures
        r@ == byte_list_text(items@),
{
    serde_json::to_string(items).unwrap_or_default()
}

// ─── Members ────────────────────────────────────────────────────────────────

pub open spec fn member_i64(v: serde_json::Value, key: Seq<char>) -> Option<i64> {
    match json_member(v, key) {
        Some(m) => json_i64(m),
        None => None,
    }
}

pub open spec fn member_str(v: serde_json::Value, key: Seq<char>) -> Option<Seq<char>> {
    match json_member(v, key) {
        Some(m) => json_str(m),
        None => None,
    }
}

pub open spec fn member_bool(v: serde_json::Value, key: Seq<char>) -> Option<bool> {
    match json_member(v, key) {
        Some(m) => json_bool(m),
        None => None,
    }
}

/// The JSON text of a member, `None` when it is missing.
pub open spec fn member_text(v: Option<serde_json::Value>) -> Option<Seq<char>> {
    match v {
        Some(m) => Some(json_text(m)),
        None => None,
    }
}

/// The elements of an array member, none when it is missing or no array.
pub open spec fn member_list(v: serde_json::Value, key: Seq<char>) -> Seq<serde_json::Value> {
    match json_member(v, key) {
        Some(m) => match json_array(m) {
            Some(a) => a,
            None => Seq::empty(),
        },
        None => Seq::empty(),
    }
}

/// The member named `a`, or else the one named `b`.
pub open spec fn either_member(v: serde_json::Value, a: Seq<char>, b: Seq<char>) -> Option<serde_json::Value> {
    match json_member(v, a) {
        Some(m) => Some(m),
        None => json_member(v, b),
    }
}

pub open spec fn opt_i64(v: Option<serde_json::Value>) -> Option<i64> {
    match v {
        Some(m) => json_i64(m),
        None => None,
    }
}

pub open spec fn opt_str(v: Option<serde_json::Value>) -> Option<Seq<char>> {
    match v {
        Some(m) => json_str(m),
        None => None,
    }
}

pub open spec fn opt_bool(v: Option<serde_json::Value>) -> Option<bool> {
    match v {
        Some(m) => json_bool(m),
        None => None,
    }
}

pub(crate) fn i64_of(v: Option<serde_json::Value>) -> (r: Option<i64>)
    ensures
        r == opt_i64(v),
{
    match v {
        Some(m) => json_as_i64(&m),
        None => None,
    }
}

pub(crate) fn str_of(v: Option<serde_json::Value>) -> (r: Option<String>)
    ensures
        opt_view(r) == opt_str(v),
{
    match v {
        Some(m) => json_as_str(&m),
        None => None,
    }
}

/// The string member `key` of `v`.
pub(crate) fn member_str_of(v: &serde_json::Value, key: &str) -> (r: Option<String>)
    ensures
        opt_view(r) == member_str(*v, key@),
{
    str_of(json_get(v, key))
}

fn bool_of(v: Option<serde_json::Value>) -> (r: Option<bool>)
    ensures
        r == opt_bool(v),
{
    match v {
        Some(m) => json_as_bool(&m),
        None => None,
    }
}

fn text_of(v: Option<serde_json::Value>) -> (r: Option<String>)
    ensures
        opt_view(r) == member_text(v),
{
    match v {
        Some(m) => Some(json_to_text(&m)),
        None => None,
    }
}

fn either(v: &serde_json::Value, a: &str, b: &str) -> (r: Option<serde_json::Value>)
    ensures
        r == either_member(*v, a@, b@),
{
    match json_get(v, a) {
        Some(m) => Some(m),
        None => json_get(v, b),
    }
}

/// The elements of the array member `key` of `v`; none when the member is
/// missing or no array.
pub fn member_values(v: &serde_json::Value, key: &str) -> (r: Vec<serde_json::Value>)
    ensures
        r@ == member_list(*v, key@),
{
    match json_get(v, key) {
        Some(m) => match json_as_array(&m) {
            Some(a) => a,
            None => Vec::new(),
        },
        None => Vec::new(),
    }
}

// ─── Questions a model returned ─────────────────────────────────────────────

/// The questions of a model reply: the `questions` array of an envelope,
/// else the reply itself when it is an array, else none.
pub open spec fn question_list(v: serde_json::Value) -> Seq<serde_json::Value> {
    let bare = match json_array(v) {
        Some(a) => a,
        None => Seq::empty(),
    };
    match json_member(v, "questions"@) {
        Some(q) => match json_array(q) {
            Some(a) => a,
            None => bare,
        },
        None => bare,
    }
}

/// The questions of a model reply, as `question_list` says.
pub fn question_values(v: &serde_json::Value) -> (r: Vec<serde_json::Value>)
    ensures
        r@ == question_list(*v),
{
    let from_envelope = match json_get(v, "questions") {
        Some(q) => json_as_array(&q),
        None => None,
    };
    match from_envelope {
        Some(a) => a,
        None => match json_as_array(v) {
            Some(a) => a,
            None => Vec::new(),
        },
    }
}

/// `r` holds the fields of the question `item`: each member read with its
/// JSON type, `options` kept as JSON text (`null` when missing).
pub open spec fn reads_raw_question(r: RawQuestion, item: serde_json::Value) -> bool {
    &&& r.domain == member_i64(item, "domain"@)
    &&& r.difficulty == member_i64(item, "difficulty"@)
    &&& opt_view(r.correct) == member_str(item, "correct"@)
    &&& opt_view(r.question) == member_str(item, "question"@)
    &&& opt_view(r.subtopic) == member_str(item, "subtopic"@)
    &&& opt_view(r.explanation) == member_str(item, "explanation"@)
    &&& r.options_json@ == match json_member(item, "options"@) {
        Some(o) => json_text(o),
        None => "null"@,
    }
}

/// Read one question of a model reply.
pub fn raw_question(item: &serde_json::Value) -> (r: RawQuestion)
    ensures
        reads_raw_question(r, *item),
{
    let options_json = match json_get(item, "options") {
        Some(o) => json_to_text(&o),
        None => String::from_str("null"),
    };
    RawQuestion {
        domain: i64_of(json_get(item, "domain")),
        difficulty: i64_of(json_get(item, "difficulty")),
        correct: str_of(json_get(item, "correct")),
        question: str_of(json_get(item, "question")),
        subtopic: str_of(json_get(item, "subtopic")),
        explanation: str_of(json_get(item, "explanation")),
        options_json,
    }
}

/// Read every question of a model reply, in order.
pub fn raw_questions(v: &serde_json::Value) -> (r: Vec<RawQuestion>)
    ensures
        r@.len() == question_list(*v).len(),
        forall|i: int| 0 <= i < r@.len() ==> reads_raw_question(#[trigger] r@[i], question_list(*v)[i]),
{
    let items = question_values(v);
    let mut out: Vec<RawQuestion> = Vec::new();
    let mut i: usize = 0;
    while i < items.len()
        invariant
            i <= items@.len(),
            items@ == question_list(*v),
            out@.len() == i,
            forall|j: int| 0 <= j < i ==> reads_raw_question(#[trigger] out@[j], items@[j]),
        decreases items@.len() - i,
    {
        out.push(raw_question(&items[i]));
        i = i + 1;
    }
    out
}

// ─── An imported dump ───────────────────────────────────────────────────────

/// `r` holds the fields of the imported question `q`; the later fields are
/// read under their camel-case name, else their snake-case one.
pub open spec fn reads_imported_question(r: ImportedQuestion, q: serde_json::Value) -> bool {
    &&& opt_view(r.id) == member_str(q, "id"@)
    &&& r.domain == member_i64(q, "domain"@)
    &&& opt_view(r.subtopic) == member_str(q, "subtopic"@)
    &&& r.difficulty == member_i64(q, "difficulty"@)
    &&& opt_view(r.question) == member_str(q, "question"@)
    &&& r.options_json@ == match json_member(q, "options"@) {
        Some(o) => json_text(o),
        None => "null"@,
    }
    &&& opt_view(r.correct) == member_str(q, "correct"@)
    &&& opt_view(r.explanation) == member_str(q, "explanation"@)
    &&& opt_view(r.user_answer) == opt_str(either_member(q, "userAnswer"@, "user_answer"@))
    &&& r.is_correct == opt_bool(either_member(q, "isCorrect"@, "is_correct"@))
    &&& r.answered_at == opt_i64(either_member(q, "answeredAt"@, "answered_at"@))
    &&& r.created_at == opt_i64(either_member(q, "createdAt"@, "created_at"@))
    &&& opt_view(r.batch_id) == opt_str(either_member(q, "batchId"@, "batch_id"@))
}

/// Read one question of an imported dump.
pub fn imported_question(q: &serde_json::Value) -> (r: ImportedQuestion)
    ensures
        reads_imported_question(r, *q),
{
    let options_json = match json_get(q, "options") {
        Some(o) => json_to_text(&o),
        None => String::from_str("null"),
    };
    ImportedQuestion {
        id: str_of(json_get(q, "id")),
        domain: i64_of(json_get(q, "domain")),
        subtopic: str_of(json_get(q, "subtopic")),
        difficulty: i64_of(json_get(q, "difficulty")),
        question: str_of(json_get(q, "question")),
        options_json,
        correct: str_of(json_get(q, "correct")),
        explanation: str_of(json_get(q, "explanation")),
        user_answer: str_of(either(q, "userAnswer", "user_answer")),
        is_correct: bool_of(either(q, "isCorrect", "is_correct")),
        answered_at: i64_of(either(q, "answeredAt", "answered_at")),
        created_at: i64_of(either(q, "createdAt", "created_at")),
        batch_id: str_of(either(q, "batchId", "batch_id")),
    }
}

/// The position member of an imported batch: `currentIdx`, else
/// `current_idx`, else `idx`.
pub open spec fn position_member(b: serde_json::Value) -> Option<serde_json::Value> {
    match json_member(b, "currentIdx"@) {
        Some(m) => Some(m),
        None => either_member(b, "current_idx"@, "idx"@),
    }
}

/// `r` holds the fields of the imported batch `b`.
pub open spec fn reads_imported_batch(r: ImportedBatch, b: serde_json::Value) -> bool {
    &&& opt_view(r.id) == member_str(b, "id"@)
    &&& r.created_at == opt_i64(either_member(b, "createdAt"@, "created_at"@))
    &&& opt_view(r.distribution_json) == member_text(json_member(b, "distribution"@))
    &&& opt_view(r.difficulty_json) == member_text(
        either_member(b, "difficultyByDomain"@, "difficulty_by_domain"@),
    )
    &&& opt_view(r.question_ids_json) == member_text(either_member(b, "questionIds"@, "question_ids"@))
    &&& opt_view(r.tier_changes_json) == member_text(either_member(b, "tierChanges"@, "tier_changes"@))
    &&& r.current_idx == opt_i64(position_member(b))
    &&& r.finished == member_bool(b, "finished"@)
}

/// Read one batch of an imported dump.
pub fn imported_batch(b: &serde_json::Value) -> (r: ImportedBatch)
    ensures
        reads_imported_batch(r, *b),
{
    let position = match json_get(b, "currentIdx") {
        Some(m) => Some(m),
        None => either(b, "current_idx", "idx"),
    };
    ImportedBatch {
        id: str_of(json_get(b, "id")),
        created_at: i64_of(either(b, "createdAt", "created_at")),
        distribution_json: text_of(json_get(b, "distribution")),
        difficulty_json: text_of(either(b, "difficultyByDomain", "difficulty_by_domain")),
        question_ids_json: text_of(either(b, "questionIds", "question_ids")),
        tier_changes_json: text_of(either(b, "tierChanges", "tier_changes")),
        current_idx: i64_of(position),
        finished: bool_of(json_get(b, "finished")),
    }
}

/// The entry of domain `d` in the member `key` of a dump (keyed by the
/// domain's number in decimal).
pub open spec fn domain_entry(body: serde_json::Value, key: Seq<char>, d: u8) -> Option<serde_json::Value> {
    match json_member(body, key) {
        Some(m) => json_member(m, decimal_text(d as nat)),
        None => None,
    }
}

fn domain_entry_exec(body: &serde_json::Value, key: &str, d: u8) -> (r: Option<serde_json::Value>)
    ensures
        r == domain_entry(*body, key@, d),
{
    match json_get(body, key) {
        Some(m) => json_get(&m, decimal(d as u64).as_str()),
        None => None,
    }
}

/// The statistics of domain `d` in a dump: attempted and correct answers
/// (0 when missing) and the JSON text of the recent outcomes (`[]` when
/// missing); all three defaults when the domain has no entry.
pub fn imported_stats(body: &serde_json::Value, d: u8) -> (r: (i64, i64, String))
    ensures
        match domain_entry(*body, "domainStats"@, d) {
            Some(e) => {
                &&& r.0 == match member_i64(e, "attempted"@) {
                    Some(a) => a as int,
                    None => 0,
                }
                &&& r.1 == match member_i64(e, "correct"@) {
                    Some(c) => c as int,
                    None => 0,
                }
                &&& r.2@ == match json_member(e, "recentCorrect"@) {
                    Some(m) => json_text(m),
                    None => "[]"@,
                }
            },
            None => r.0 == 0 && r.1 == 0 && r.2@ == "[]"@,
        },
{
    match domain_entry_exec(body, "domainStats", d) {
        Some(e) => import_stats(
            i64_of(json_get(&e, "attempted")),
            i64_of(json_get(&e, "correct")),
            text_of(json_get(&e, "recentCorrect")),
        ),
        None => import_stats(None, None, None),
    }
}

/// The tier of domain `d` in a dump: 1 when missing, kept within 1..=4.
pub fn imported_tier(body: &serde_json::Value, d: u8) -> (r: i64)
    ensures
        r == ({
            let v = match opt_i64(domain_entry(*body, "difficulty"@, d)) {
                Some(t) => t as int,
                None => 1,
            };
            if v < 1 {
                1
            } else if v > 4 {
                4
            } else {
                v
            }
        }),
{
    import_tier(i64_of(domain_entry_exec(body, "difficulty", d)))
}

/// The batch a dump marks as active: `currentBatch.batchId`, when it is a
/// string.
pub fn imported_active_batch(body: &serde_json::Value) -> (r: Option<String>)
    ensures
        opt_view(r) == match json_member(*body, "currentBatch"@) {
            Some(cb) => member_str(cb, "batchId"@),
            None => None,
        },
{
    match json_get(body, "currentBatch") {
        Some(cb) => str_of(json_get(&cb, "batchId")),
        None => None,
    }
}

// ─── JSON lists kept in the database ───────────────────────────────────────

/// The question ids a batch row lists; none when its text does not parse.
pub fn question_ids(text: &str) -> (r: Vec<String>)
    ensures
        r@.map_values(|s: String| s@) == match json_string_list(text@) {
            Some(l) => l,
            None => Seq::empty(),
        },
{
    match parse_string_list(text) {
        Some(l) => l,
        None => {
            let v: Vec<String> = Vec::new();
            assert(v@.map_values(|s: String| s@) =~= Seq::<Seq<char>>::empty());
            v
        },
    }
}

/// The recent outcomes a statistics row lists; none when its text does not
/// parse.
pub fn recent_outcomes(text: &str) -> (r: Vec<u8>)
    ensures
        r@ == match json_byte_list(text@) {
            Some(l) => l,
            None => Seq::empty(),
        },
{
    match parse_byte_list(text) {
        Some(l) => l,
        None => Vec::new(),
    }
}

/// The JSON text stored for a list of question ids.
pub fn question_ids_text(ids: &Vec<String>) -> (r: String)
    ensures
        r@ == string_list_text(ids@.map_values(|s: String| s@)),
{
    write_string_list(ids)
}

/// The JSON text stored for a window of recent outcomes.
pub fn recent_outcomes_text(outcomes: &Vec<u8>) -> (r: String)
    ensures
        r@ == byte_list_text(outcomes@),
{
    write_byte_list(outcomes)
}

} // verus!
