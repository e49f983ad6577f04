//! Recovering the JSON a language model returned: stripping code fences and
//! prose around it, salvaging an answer cut off mid-array, and counting how
//! many questions have streamed in so far.
use crate::text::{
    chars_of, first_char, first_char_exec, last_char, last_char_exec, last_occurrence,
    last_occurrence_exec, last_occurrence_upto, occurs_at, occurs_at_exec, push_range, starts_with,
    string_of, string_of_range, strip_prefixes, strip_prefixes_exec, trim, trim_chars, first_char_from,
    last_char_upto,
    contains_exec, contains_text, skip_whitespace, trim_start,
};
use vstd::prelude::*;

verus! {

broadcast use vstd::string::group_string_axioms;

#[verifier::external_type_specification]
#[verifier::external_body]
pub struct ExJsonValue(serde_json::Value);

/// The value `serde_json::from_str::<Value>` parses from `text`, `None`
/// when `text` is not one JSON document.
pub uninterp spec fn parsed_json(text: Seq<char>) -> Option<serde_json::Value>;

/// `serde_json::from_str::<Value>`, with the error dropped.
#[verifier::external_body]
pub(crate) fn parse_json(text: &str) -> (v: Option<serde_json::Value>)
    ensures
        v == parsed_json(text@),
{
    serde_json::from_str::<serde_json::Value>(text).ok()
}

// ─── Fences and surrounding prose ──────────────────────────────────────────

pub open spec fn fence() -> Seq<char> {
    seq!['`', '`', '`']
}

pub open spec fn json_fence() -> Seq<char> {
    seq!['`', '`', '`', 'j', 's', 'o', 'n']
}

/// The reply trimmed and, when it starts with a code fence, without the
/// opening fence(s) and everything from the last closing fence on.
pub open spec fn unfenced(s: Seq<char>) -> Seq<char> {
    let t = trim(s);
    if starts_with(t, fence()) {
        let u = trim(strip_prefixes(strip_prefixes(t, json_fence()), fence()));
        match last_occurrence(u, fence()) {
            Some(i) => trim(u.take(i)),
            None => u,
        }
    } else {
        t
    }
}

/// Whether cutting the unfenced reply down to its outermost braces is
/// defined: a `{` after the last `}` (with something between) leaves no
/// range to cut.
pub open spec fn clean_json_defined(s: Seq<char>) -> bool {
    let t = unfenced(s);
    match (first_char(t, '{'), last_char(t, '}')) {
        (Some(a), Some(b)) => a <= b + 1,
        _ => true,
    }
}

/// The cleaned reply: the unfenced text from its first `{` to its last `}`.
pub open spec fn clean_json_text(s: Seq<char>) -> Seq<char> {
    let t = unfenced(s);
    match (first_char(t, '{'), last_char(t, '}')) {
        (Some(a), Some(b)) => if a > 0 || b < t.len() - 1 {
            t.subrange(a, b + 1)
        } else {
            t
        },
        _ => t,
    }
}

fn unfenced_exec(v: &Vec<char>) -> (t: Vec<char>)
    ensures
        t@ == unfenced(v@),
{
    let fence_v: Vec<char> = vec!['`', '`', '`'];
    let json_fence_v: Vec<char> = vec!['`', '`', '`', 'j', 's', 'o', 'n'];
    assert(fence_v@ =~= fence());
    assert(json_fence_v@ =~= json_fence());
    let t = trim_chars(v);
    if occurs_at_exec(&t, &fence_v, 0) {
        let a = strip_prefixes_exec(&t, &json_fence_v);
        let b = strip_prefixes_exec(&a, &fence_v);
        let u = trim_chars(&b);
        match last_occurrence_exec(&u, &fence_v) {
            Some(i) => {
                proof {
                    lemma_last_occurrence_bound(u@, fence(), u@.len() as int);
                }
                let mut w = Vec::new();
                push_range(&mut w, &u, 0, i);
                assert(w@ =~= u@.take(i as int));
                trim_chars(&w)
            },
            None => u,
        }
    } else {
        t
    }
}

proof fn lemma_last_occurrence_bound(s: Seq<char>, p: Seq<char>, k: int)
    ensures
        last_occurrence_upto(s, p, k) matches Some(i) ==> 0 <= i <= k && occurs_at(s, p, i),
    decreases k + 1,
{
    if k >= 0 && !occurs_at(s, p, k) {
        lemma_last_occurrence_bound(s, p, k - 1);
    }
}

proof fn lemma_first_char_bound(s: Seq<char>, c: char, k: int)
    ensures
        first_char_from(s, c, k) matches Some(i) ==> k <= i < s.len() && s[i] == c,
    decreases s.len() - k,
{
    if 0 <= k < s.len() && s[k] != c {
        lemma_first_char_bound(s, c, k + 1);
    }
}

/// Whether `clean_llm_json` is defined on `s` (see `clean_json_defined`).
pub fn clean_llm_json_defined(s: &str) -> (b: bool)
    ensures
        b == clean_json_defined(s@),
{
    let v = chars_of(s);
    let t = unfenced_exec(&v);
    match (first_char_exec(&t, '{'), last_char_exec(&t, '}')) {
        (Some(a), Some(b)) => a <= b + 1,
        _ => true,
    }
}

/// Strip markdown code fences and surrounding prose from a model reply,
/// keeping the text from the first `{` to the last `}`.
pub fn clean_llm_json(s: &str) -> (r: String)
    requires
        clean_json_defined(s@),
    ensures
        r@ == clean_json_text(s@),
        unfenced(s@).len() > 0 && unfenced(s@)[0] == '{' && unfenced(s@).last() == '}' ==> r@
            == unfenced(s@),
{
    proof {
        lemma_clean_json_span(s@, 0, 0);
    }
    let v = chars_of(s);
    let t = unfenced_exec(&v);
    proof {
        lemma_first_char_bound(t@, '{', 0);
    }
    match (first_char_exec(&t, '{'), last_char_exec(&t, '}')) {
        (Some(a), Some(b)) => {
            if a > 0 || b < t.len() - 1 {
                string_of_range(&t, a, b + 1)
            } else {
                string_of(&t)
            }
        },
        _ => string_of(&t),
    }
}


proof fn lemma_first_char_at(s: Seq<char>, c: char, k: int, a: int)
    requires
        0 <= k <= a < s.len(),
        s[a] == c,
        forall|j: int| 0 <= j < a ==> s[j] != c,
    ensures
        first_char_from(s, c, k) == Some(a),
    decreases a - k,
{
    if k < a {
        lemma_first_char_at(s, c, k + 1, a);
    }
}

proof fn lemma_first_char_none(s: Seq<char>, c: char, k: int)
    requires
        0 <= k,
        forall|j: int| 0 <= j < s.len() ==> s[j] != c,
    ensures
        first_char_from(s, c, k) is None,
    decreases s.len() - k,
{
    if k < s.len() {
        lemma_first_char_none(s, c, k + 1);
    }
}

proof fn lemma_last_char_at(s: Seq<char>, c: char, k: int, b: int)
    requires
        0 <= b <= k < s.len(),
        s[b] == c,
        forall|j: int| b < j < s.len() ==> s[j] != c,
    ensures
        last_char_upto(s, c, k) == Some(b),
    decreases k - b,
{
    if k > b {
        lemma_last_char_at(s, c, k - 1, b);
    }
}

proof fn lemma_last_char_none(s: Seq<char>, c: char, k: int)
    requires
        k < s.len(),
        forall|j: int| 0 <= j < s.len() ==> s[j] != c,
    ensures
        last_char_upto(s, c, k) is None,
    decreases k + 1,
{
    if k >= 0 {
        lemma_last_char_none(s, c, k - 1);
    }
}

/// The cleaned reply runs from the first `{` of the unfenced reply to its
/// last `}`; an unfenced reply that starts with `{` and ends with `}` comes
/// back unchanged, and one without a `{` or without a `}` comes back as it
/// is too.
pub proof fn lemma_clean_json_span(s: Seq<char>, a: int, b: int)
    requires
        clean_json_defined(s),
    ensures
        ({
            let t = unfenced(s);
            &&& (0 <= a < t.len() && 0 <= b < t.len() && t[a] == '{' && t[b] == '}' && (forall|
                j: int,
            | 0 <= j < a ==> t[j] != '{') && (forall|j: int| b < j < t.len() ==> t[j] != '}'))
                ==> a <= b + 1 && clean_json_text(s) == t.subrange(a, b + 1)
            &&& (t.len() > 0 && t[0] == '{' && t[t.len() - 1] == '}') ==> clean_json_text(s) == t
            &&& ((forall|j: int| 0 <= j < t.len() ==> t[j] != '{') || (forall|j: int|
                0 <= j < t.len() ==> t[j] != '}')) ==> clean_json_text(s) == t
        }),
{
    let t = unfenced(s);
    if 0 <= a < t.len() && 0 <= b < t.len() && t[a] == '{' && t[b] == '}' && (forall|j: int|
        0 <= j < a ==> t[j] != '{') && (forall|j: int| b < j < t.len() ==> t[j] != '}') {
        lemma_first_char_at(t, '{', 0, a);
        lemma_last_char_at(t, '}', t.len() - 1, b);
        if !(a > 0 || b < t.len() - 1) {
            assert(t.subrange(a, b + 1) =~= t);
        }
    }
    if t.len() > 0 && t[0] == '{' && t[t.len() - 1] == '}' {
        lemma_first_char_at(t, '{', 0, 0);
        lemma_last_char_at(t, '}', t.len() - 1, t.len() - 1);
    }
    if forall|j: int| 0 <= j < t.len() ==> t[j] != '{' {
        lemma_first_char_none(t, '{', 0);
    }
    if forall|j: int| 0 <= j < t.len() ==> t[j] != '}' {
        lemma_last_char_none(t, '}', t.len() - 1);
    }
}

// ─── Salvaging a truncated reply ───────────────────────────────────────────

/// Scanner state after a prefix: inside a string, after a backslash in a
/// string, object depth, array depth, and the index of the last `}` that
/// closed a question object.
pub type ScanState = (bool, bool, int, int, Option<int>);

pub open spec fn scan_start() -> ScanState {
    (false, false, 0, 0, None)
}

/// One character of the scan, at index `i`.
pub open spec fn scan_step(st: ScanState, c: char, i: int) -> ScanState {
    let (in_str, esc, obj, arr, last) = st;
    if in_str {
        if esc {
            (true, false, obj, arr, last)
        } else if c == '\\' {
            (true, true, obj, arr, last)
        } else if c == '"' {
            (false, false, obj, arr, last)
        } else {
            st
        }
    } else if c == '"' {
        (true, esc, obj, arr, last)
    } else if c == '{' {
        (false, esc, obj + 1, arr, last)
    } else if c == '}' {
        (false, esc, obj - 1, arr, if arr >= 1 && obj - 1 <= 1 { Some(i) } else { last })
    } else if c == '[' {
        (false, esc, obj, arr + 1, last)
    } else if c == ']' {
        (false, esc, obj, arr - 1, last)
    } else {
        st
    }
}

/// The scan state after all of `s`.
pub open spec fn scan_state(s: Seq<char>) -> ScanState
    decreases s.len(),
{
    if s.len() == 0 {
        scan_start()
    } else {
        scan_step(scan_state(s.drop_last()), s.last(), s.len() - 1)
    }
}

pub open spec fn questions_key() -> Seq<char> {
    seq!['"', 'q', 'u', 'e', 's', 't', 'i', 'o', 'n', 's', '"']
}

/// The reply cut after its last complete question object and closed again:
/// `]}` after an envelope with a `"questions"` key, `]` after a bare array.
pub open spec fn salvage_text(s: Seq<char>) -> Option<Seq<char>> {
    match scan_state(s).4 {
        None => None,
        Some(end) => {
            let prefix = s.take(end + 1);
            if contains_text(prefix, questions_key()) {
                Some(prefix + seq![']', '}'])
            } else if starts_with(trim_start(prefix), seq!['[']) {
                Some(prefix + seq![']'])
            } else {
                None
            }
        },
    }
}

/// The text `salvage_truncated_json` hands to the JSON parser, if any.
pub fn salvage_candidate(s: &str) -> (r: Option<String>)
    ensures
        r matches Some(t) ==> salvage_text(s@) == Some(t@),
        r is None ==> salvage_text(s@) is None,
{
    let v = chars_of(s);
    let n = v.len();
    let mut in_str = false;
    let mut esc = false;
    let mut depth_obj: i128 = 0;
    let mut depth_arr: i128 = 0;
    let mut last: Option<usize> = None;
    let mut i: usize = 0;
    assert(v@.take(0) =~= Seq::<char>::empty());
    while i < n
        invariant
            n == v@.len(),
            i <= n,
            -(i as int) <= depth_obj <= i,
            -(i as int) <= depth_arr <= i,
            last matches Some(e) ==> e < i,
            scan_state(v@.take(i as int)) == (
                in_str,
                esc,
                depth_obj as int,
                depth_arr as int,
                match last {
                    Some(e) => Some(e as int),
                    None => None,
                },
            ),
        decreases n - i,
    {
        let c = v[i];
        proof {
            assert(v@.take(i + 1).drop_last() =~= v@.take(i as int));
        }
        if in_str {
            if esc {
                esc = false;
            } else if c == '\\' {
                esc = true;
            } else if c == '"' {
                in_str = false;
            }
        } else if c == '"' {
            in_str = true;
        } else if c == '{' {
            depth_obj = depth_obj + 1;
        } else if c == '}' {
            depth_obj = depth_obj - 1;
            if depth_arr >= 1 && depth_obj <= 1 {
                last = Some(i);
            }
        } else if c == '[' {
            depth_arr = depth_arr + 1;
        } else if c == ']' {
            depth_arr = depth_arr - 1;
        }
        i = i + 1;
    }
    assert(v@.take(n as int) =~= v@);
    let end = match last {
        Some(e) => e,
        None => {
            return None;
        },
    };
    let mut prefix: Vec<char> = Vec::new();
    push_range(&mut prefix, &v, 0, end + 1);
    assert(prefix@ =~= v@.take(end + 1));
    let key: Vec<char> = vec!['"', 'q', 'u', 'e', 's', 't', 'i', 'o', 'n', 's', '"'];
    assert(key@ =~= questions_key());
    if contains_exec(&prefix, &key) {
        prefix.push(']');
        prefix.push('}');
        assert(prefix@ =~= v@.take(end + 1) + seq![']', '}']);
        return Some(string_of(&prefix));
    }
    let k = skip_whitespace(&prefix, 0, prefix.len());
    assert(prefix@.subrange(0, prefix@.len() as int) =~= prefix@);
    let open_bracket: Vec<char> = vec!['['];
    assert(open_bracket@ =~= seq!['[']);
    let starts = k < prefix.len() && prefix[k] == '[';
    proof {
        let rest = prefix@.subrange(k as int, prefix@.len() as int);
        if k < prefix@.len() {
            assert(rest.subrange(0, 1) =~= seq![prefix@[k as int]]);
        }
    }
    if starts {
        prefix.push(']');
        assert(prefix@ =~= v@.take(end + 1) + seq![']']);
        Some(string_of(&prefix))
    } else {
        None
    }
}

/// Whether the `}` at `e` closes an object at question level: it stands
/// outside any string, and after it the reply is inside an array with at
/// most one object still open (the envelope).
pub open spec fn closes_question(s: Seq<char>, e: int) -> bool {
    &&& 0 <= e < s.len()
    &&& s[e] == '}'
    &&& !scan_state(s.take(e)).0
    &&& scan_state(s.take(e + 1)).2 <= 1
    &&& scan_state(s.take(e + 1)).3 >= 1
}

proof fn lemma_scan_last(s: Seq<char>)
    ensures
        scan_state(s).4 matches Some(e) ==> closes_question(s, e) && forall|e2: int|
            e < e2 < s.len() ==> !#[trigger] closes_question(s, e2),
        scan_state(s).4 is None ==> forall|e2: int| !#[trigger] closes_question(s, e2),
    decreases s.len(),
{
    if s.len() > 0 {
        let p = s.drop_last();
        let n = s.len() as int;
        lemma_scan_last(p);
        assert(s.take(n) =~= s);
        assert(s.take(n - 1) =~= p);
        assert forall|e: int| 0 <= e < n - 1 implies #[trigger] closes_question(s, e)
            == closes_question(p, e) by {
            assert(s.take(e) =~= p.take(e));
            assert(s.take(e + 1) =~= p.take(e + 1));
        }
    }
}

/// Salvaging cuts a reply right after its last question-level `}`: the
/// salvaged text is the reply up to that brace, closed again with `]}` or
/// `]`, and no later `}` closes a question; a `}` that closes an object
/// nested inside a question is never a cut point. A reply with no
/// question-level `}` salvages nothing.
pub proof fn lemma_salvage_cuts_after_last_question(s: Seq<char>)
    ensures
        salvage_text(s) matches Some(t) ==> exists|e: int|
            {
                &&& #[trigger] closes_question(s, e)
                &&& forall|e2: int| e < e2 < s.len() ==> !#[trigger] closes_question(s, e2)
                &&& (t == s.take(e + 1) + seq![']', '}'] || t == s.take(e + 1) + seq![']'])
            },
        (forall|e: int| !#[trigger] closes_question(s, e)) ==> salvage_text(s) is None,
{
    lemma_scan_last(s);
    if let Some(e) = scan_state(s).4 {
        assert(closes_question(s, e));
    }
}

/// Text without quotes, backslashes, braces or brackets.
pub open spec fn plain_text(w: Seq<char>) -> bool {
    forall|i: int|
        0 <= i < w.len() ==> {
            let c = #[trigger] w[i];
            c != '"' && c != '\\' && c != '{' && c != '}' && c != '[' && c != ']'
        }
}

proof fn lemma_scan_plain(h: Seq<char>, w: Seq<char>)
    requires
        plain_text(w),
        !scan_state(h).0,
    ensures
        scan_state(h + w) == scan_state(h),
    decreases w.len(),
{
    if w.len() > 0 {
        let p = w.drop_last();
        lemma_scan_plain(h, p);
        assert((h + w).drop_last() =~= h + p);
        assert((h + w).last() == w[w.len() - 1]);
    }
}

proof fn lemma_scan_push(h: Seq<char>, c: char)
    ensures
        scan_state(h.push(c)) == scan_step(scan_state(h), c, h.len() as int),
{
    assert(h.push(c).drop_last() =~= h);
}

/// Inside the questions array, closing an object nested in a question does
/// not move the salvage cut, so it salvages what the text before the
/// question did; closing the question itself moves the cut to its brace,
/// and with a `"questions"` key before it the salvaged text is everything
/// up to that brace closed with `]}`.
pub proof fn lemma_nested_close_keeps_cut(h: Seq<char>, w1: Seq<char>, w2: Seq<char>)
    requires
        !scan_state(h).0,
        scan_state(h).2 == 1,
        scan_state(h).3 == 1,
        plain_text(w1),
        plain_text(w2),
    ensures
        ({
            let q = h + seq!['{'] + w1 + seq!['{'] + w2 + seq!['}'];
            &&& scan_state(q).4 == scan_state(h).4
            &&& salvage_text(q) == salvage_text(h)
            &&& scan_state(q.push('}')).4 == Some(q.len() as int)
            &&& contains_text(h, questions_key()) ==> salvage_text(q.push('}')) == Some(
                q.push('}') + seq![']', '}'],
            )
        }),
{
    let q1 = h.push('{');
    lemma_scan_push(h, '{');
    let q2 = q1 + w1;
    lemma_scan_plain(q1, w1);
    let q3 = q2.push('{');
    lemma_scan_push(q2, '{');
    let q4 = q3 + w2;
    lemma_scan_plain(q3, w2);
    let q = q4.push('}');
    lemma_scan_push(q4, '}');
    assert(q =~= h + seq!['{'] + w1 + seq!['{'] + w2 + seq!['}']);
    assert(scan_state(q).4 == scan_state(h).4);
    lemma_scan_push(q, '}');
    if let Some(e) = scan_state(h).4 {
        lemma_scan_last(h);
        assert(q.take(e + 1) =~= h.take(e + 1));
    }
    let full = q.push('}');
    if contains_text(h, questions_key()) {
        let i = choose|i: int| occurs_at(h, questions_key(), i);
        assert(full.take(q.len() + 1 as int) =~= full);
        assert(full.subrange(i, i + questions_key().len()) =~= h.subrange(i, i + questions_key().len()));
        assert(occurs_at(full, questions_key(), i));
    }
}

/// Recover usable JSON from a reply cut off mid-array (for instance when
/// the provider hit its token cap): keep everything up to the last complete
/// question object, close the array (and envelope) and parse that. `None`
/// unless at least one complete question object is recovered and parses.
pub fn salvage_truncated_json(s: &str) -> (r: Option<serde_json::Value>)
    ensures
        r == match salvage_text(s@) {
            Some(t) => parsed_json(t),
            None => None,
        },
{
    match salvage_candidate(s) {
        Some(t) => parse_json(t.as_str()),
        None => None,
    }
}

/// What a model reply is read as: the cleaned reply parsed as JSON, or,
/// when that fails, the salvaged part of it.
pub open spec fn model_output(raw: Seq<char>) -> Option<serde_json::Value> {
    let cleaned = clean_json_text(raw);
    match parsed_json(cleaned) {
        Some(v) => Some(v),
        None => match salvage_text(cleaned) {
            Some(t) => parsed_json(t),
            None => None,
        },
    }
}

/// Read a model reply as JSON: strip fences and prose, parse, and fall back
/// to salvaging a reply cut off mid-array. `None` when neither works.
pub fn parse_model_output(raw: &str) -> (r: Option<serde_json::Value>)
    requires
        clean_json_defined(raw@),
    ensures
        r == model_output(raw@),
{
    let cleaned = clean_llm_json(raw);
    match parse_json(cleaned.as_str()) {
        Some(v) => Some(v),
        None => salvage_truncated_json(cleaned.as_str()),
    }
}

// ─── Streaming progress ─────────────────────────────────────────────────────

/// Non-overlapping occurrences of `p` in `s`, scanning left to right
/// (`str::matches(..).count()`).
pub open spec fn count_matches(s: Seq<char>, p: Seq<char>) -> nat
    decreases s.len(),
{
    if p.len() == 0 || s.len() < p.len() {
        0
    } else if starts_with(s, p) {
        1 + count_matches(s.skip(p.len() as int), p)
    } else {
        count_matches(s.drop_first(), p)
    }
}

pub open spec fn correct_key() -> Seq<char> {
    seq!['"', 'c', 'o', 'r', 'r', 'e', 'c', 't', '"']
}

/// Questions parsed so far in a streamed reply: the `"correct"` keys seen,
/// capped at the batch total.
pub open spec fn streamed_progress(buf: Seq<char>, total: u32) -> int {
    let n = count_matches(buf, correct_key());
    if n > total {
        total as int
    } else {
        n as int
    }
}

/// How many questions of a batch of `total` the reply streamed so far holds.
pub fn parsed_progress(buf: &str, total: u32) -> (n: u32)
    ensures
        n == streamed_progress(buf@, total),
{
    let v = chars_of(buf);
    let key: Vec<char> = vec!['"', 'c', 'o', 'r', 'r', 'e', 'c', 't', '"'];
    assert(key@ =~= correct_key());
    let len = v.len();
    let mut i: usize = 0;
    let mut count: u32 = 0;
    assert(v@.skip(0) =~= v@);
    while i < len
        invariant
            len == v@.len(),
            v@ == buf@,
            i <= len,
            count <= total,
            key@ == correct_key(),
            streamed_progress(v@, total) == if count_matches(v@.skip(i as int), key@) + count
                > total {
                total as int
            } else {
                count_matches(v@.skip(i as int), key@) + count
            },
        decreases len - i,
    {
        let ghost rest = v@.skip(i as int);
        if occurs_at_exec(&v, &key, i) {
            proof {
                assert(rest.subrange(0, 9) =~= v@.subrange(i as int, i + 9));
                assert(rest.skip(9) =~= v@.skip(i + 9));
                assert(starts_with(rest, key@));
                assert(count_matches(rest, key@) == 1 + count_matches(v@.skip(i + 9), key@));
            }
            if count == total {
                proof {
                    let m = count_matches(v@.skip(i as int), key@);
                    assert(m >= 1);
                    assert(m + count > total);
                }
                return total;
            }
            count = count + 1;
            i = i + 9;
        } else {
            proof {
                if rest.len() >= 9 {
                    assert(rest.subrange(0, 9) =~= v@.subrange(i as int, i + 9));
                }
                assert(rest.drop_first() =~= v@.skip(i + 1));
            }
            i = i + 1;
        }
    }
    proof {
        assert(v@.skip(i as int).len() == 0);
        assert(count_matches(v@.skip(i as int), key@) == 0);
    }
    count
}

} // verus!
