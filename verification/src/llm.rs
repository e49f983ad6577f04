//! The decisions behind streaming a chat completion: splitting the
//! server-sent-event byte stream into `data:` payloads, turning each payload
//! of either provider into a token, the end of the answer or an error, and
//! collecting a whole answer.
use crate::text::{
    chars_of, decimal, decimal_text, first_char, first_char_from, occurs_at_exec,
    push_range, starts_with, trim, truncate, truncate_defined,
    truncated_text,
};
use crate::llm_json::{parse_json, parsed_json};
use crate::records::{json_at, json_element, json_get, json_member, member_str, member_str_of};
use vstd::prelude::*;
use vstd::string::StringExecFns;

verus! {

broadcast use vstd::string::group_string_axioms;

/// One chat turn.
#[derive(Debug, Clone)]
pub struct ChatMessage {
    pub role: String,
    pub content: String,
}

/// Why a completion failed.
#[derive(Debug, Clone)]
pub enum LlmError {
    MissingKey(&'static str),
    Upstream { provider: &'static str, status: u16, body: String },
    Network(String),
    Parse(String),
}

impl LlmError {
    /// The text this error is reported with.
    pub open spec fn message_text(self) -> Seq<char> {
        match self {
            LlmError::MissingKey(p) => "missing api key for provider: "@ + p@,
            LlmError::Upstream { provider, status, body } => "upstream "@ + provider@
                + " returned "@ + decimal_text(status as nat) + ": "@ + body@,
            LlmError::Network(m) => "network: "@ + m@,
            LlmError::Parse(m) => "parse: "@ + m@,
        }
    }

    /// The text this error is reported with.
    pub fn message(&self) -> (s: String)
        ensures
            s@ == self.message_text(),
    {
        match self {
            LlmError::MissingKey(p) => {
                let mut s = String::from_str("missing api key for provider: ");
                s.append(p);
                s
            },
            LlmError::Upstream { provider, status, body } => {
                let mut s = String::from_str("upstream ");
                s.append(provider);
                s.append(" returned ");
                s.append(decimal(*status as u64).as_str());
                s.append(": ");
                s.append(body.as_str());
                s
            },
            LlmError::Network(m) => {
                let mut s = String::from_str("network: ");
                s.append(m.as_str());
                s
            },
            LlmError::Parse(m) => {
                let mut s = String::from_str("parse: ");
                s.append(m.as_str());
                s
            },
        }
    }
}

/// Options of an Anthropic request: the model, the answer's token limit and
/// the system prompt.
#[derive(Debug, Clone)]
pub struct AnthropicOptions<'a> {
    pub model: &'a str,
    pub max_tokens: u32,
    pub system: &'a str,
}

/// The provider a request goes to, with its API key.
#[derive(Debug, Clone)]
pub enum ProviderCall {
    Anthropic { key: String },
    OpenAi { key: String },
}

/// Where a request for `provider` goes: Anthropic when it is named
/// `anthropic`, OpenAI for any other name; refused when that provider has
/// no key.
pub fn provider_call(provider: &str, anthropic_key: Option<String>, openai_key: Option<String>) -> (r: Result<ProviderCall, LlmError>)
    ensures
        provider@ == "anthropic"@ ==> match anthropic_key {
            Some(k) => r matches Ok(ProviderCall::Anthropic { key }) && key == k,
            None => r matches Err(LlmError::MissingKey(p)) && p@ == "anthropic"@,
        },
        provider@ != "anthropic"@ ==> match openai_key {
            Some(k) => r matches Ok(ProviderCall::OpenAi { key }) && key == k,
            None => r matches Err(LlmError::MissingKey(p)) && p@ == "openai"@,
        },
{
    if String::from_str(provider) == String::from_str("anthropic") {
        match anthropic_key {
            Some(key) => Ok(ProviderCall::Anthropic { key }),
            None => Err(LlmError::MissingKey("anthropic")),
        }
    } else {
        match openai_key {
            Some(key) => Ok(ProviderCall::OpenAi { key }),
            None => Err(LlmError::MissingKey("openai")),
        }
    }
}

/// The error reported for a refused request: the provider's label, the
/// HTTP status and the start of the response body.
pub open spec fn http_error_text(label: Seq<char>, status: u16, body: Seq<char>) -> Seq<char> {
    label + " HTTP "@ + decimal_text(status as nat) + ": "@ + truncated_text(body, 400)
}

/// Report a refused request: `<label> HTTP <status>: ` and the body cut to
/// 400 bytes.
pub fn http_error_message(label: &str, status: u16, body: &str) -> (s: String)
    requires
        truncate_defined(body, 400),
    ensures
        s@ == http_error_text(label@, status, body@),
{
    let mut s = String::from_str(label);
    s.append(" HTTP ");
    s.append(decimal(status as u64).as_str());
    s.append(": ");
    s.append(truncate(body, 400).as_str());
    s
}

/// What a provider stream hands on: a piece of text, the end, or an error.
#[derive(Debug, Clone)]
pub enum LlmEvent {
    Token { text: String },
    Done,
    Error { message: String },
}

// ─── Server-sent-event lines ───────────────────────────────────────────────

/// The complete lines of `s` (without their `\n`) and what follows the last
/// `\n`.
pub open spec fn split_lines(s: Seq<char>) -> (Seq<Seq<char>>, Seq<char>)
    decreases s.len(),
{
    match first_char(s, '\n') {
        None => (Seq::empty(), s),
        Some(i) => {
            if 0 <= i < s.len() {
                let rest = split_lines(s.skip(i + 1));
                (seq![s.take(i)] + rest.0, rest.1)
            } else {
                (Seq::empty(), s)
            }
        },
    }
}

/// `s` without trailing carriage returns.
pub open spec fn trim_cr(s: Seq<char>) -> Seq<char>
    decreases s.len(),
{
    if s.len() > 0 && s.last() == '\r' {
        trim_cr(s.drop_last())
    } else {
        s
    }
}

pub open spec fn data_prefix() -> Seq<char> {
    seq!['d', 'a', 't', 'a', ':', ' ']
}

/// The trimmed payload of a `data: ` line; `None` for any other line.
pub open spec fn line_payload(line: Seq<char>) -> Option<Seq<char>> {
    let l = trim_cr(line);
    if starts_with(l, data_prefix()) {
        Some(trim(l.skip(6)))
    } else {
        None
    }
}

/// The payloads of the `data: ` lines among `lines`, in order.
pub open spec fn payloads(lines: Seq<Seq<char>>) -> Seq<Seq<char>>
    decreases lines.len(),
{
    if lines.len() == 0 {
        Seq::empty()
    } else {
        let prev = payloads(lines.drop_last());
        match line_payload(lines.last()) {
            Some(p) => prev.push(p),
            None => prev,
        }
    }
}

proof fn lemma_first_char_from_props(s: Seq<char>, c: char, k: int)
    requires
        0 <= k,
    ensures
        match first_char_from(s, c, k) {
            Some(i) => k <= i < s.len() && s[i] == c && forall|j: int| k <= j < i ==> s[j] != c,
            None => forall|j: int| k <= j < s.len() ==> s[j] != c,
        },
    decreases s.len() - k,
{
    if k < s.len() && s[k] != c {
        lemma_first_char_from_props(s, c, k + 1);
    }
}

/// The first `c` of `s + t`: the first one of `s`, else the first one of `t`.
proof fn lemma_first_char_concat(s: Seq<char>, t: Seq<char>, c: char)
    ensures
        first_char(s + t, c) == match first_char(s, c) {
            Some(i) => Some(i),
            None => match first_char(t, c) {
                Some(j) => Some(j + s.len()),
                None => None,
            },
        },
{
    let u = s + t;
    lemma_first_char_from_props(s, c, 0);
    lemma_first_char_from_props(t, c, 0);
    lemma_first_char_from_props(u, c, 0);
    match first_char(u, c) {
        Some(k) => {
            match first_char(s, c) {
                Some(i) => {
                    assert(u[i] == c);
                    if k < i {
                        assert(s[k] == c);
                    }
                },
                None => {
                    if k < s.len() {
                        assert(s[k] == c);
                    }
                    assert(t[k - s.len()] == c);
                    match first_char(t, c) {
                        Some(j) => {
                            assert(u[j + s.len()] == c);
                            if j + s.len() < k {
                            } else if k - s.len() < j {
                                assert(t[k - s.len()] == c);
                            }
                        },
                        None => {},
                    }
                },
            }
        },
        None => {
            match first_char(s, c) {
                Some(i) => {
                    assert(u[i] == c);
                },
                None => {
                    match first_char(t, c) {
                        Some(j) => {
                            assert(u[j + s.len()] == c);
                        },
                        None => {},
                    }
                },
            }
        },
    }
}

/// Splitting `s + t` splits `s`, then what `s` held back followed by `t`.
proof fn lemma_split_lines_concat(s: Seq<char>, t: Seq<char>)
    ensures
        split_lines(s + t) == (
            split_lines(s).0 + split_lines(split_lines(s).1 + t).0,
            split_lines(split_lines(s).1 + t).1,
        ),
    decreases s.len(),
{
    lemma_first_char_concat(s, t, '\n');
    lemma_first_char_from_props(s, '\n', 0);
    match first_char(s, '\n') {
        None => {
            assert(split_lines(s).0 =~= Seq::<Seq<char>>::empty());
            assert(split_lines(s).0 + split_lines(s + t).0 =~= split_lines(s + t).0);
        },
        Some(i) => {
            let rest = split_lines(s.skip(i + 1));
            assert((s + t).take(i) =~= s.take(i));
            assert((s + t).skip(i + 1) =~= s.skip(i + 1) + t);
            lemma_split_lines_concat(s.skip(i + 1), t);
            let x = split_lines(rest.1 + t);
            assert(seq![s.take(i)] + (rest.0 + x.0) =~= (seq![s.take(i)] + rest.0) + x.0);
        },
    }
}

proof fn lemma_payloads_concat(a: Seq<Seq<char>>, b: Seq<Seq<char>>)
    ensures
        payloads(a + b) == payloads(a) + payloads(b),
    decreases b.len(),
{
    if b.len() == 0 {
        assert(a + b =~= a);
        assert(payloads(a) + payloads(b) =~= payloads(a));
    } else {
        assert((a + b).drop_last() =~= a + b.drop_last());
        lemma_payloads_concat(a, b.drop_last());
        match line_payload(b.last()) {
            Some(p) => {
                assert(payloads(a) + payloads(b.drop_last()).push(p) =~= (payloads(a) + payloads(
                    b.drop_last(),
                )).push(p));
            },
            None => {},
        }
    }
}

/// How a stream is cut into chunks does not matter: feeding `a` and then
/// `b` hands out the payloads that feeding `a + b` at once does, in the same
/// order, and holds back the same incomplete line.
pub proof fn lemma_feed_in_chunks(pending: Seq<char>, a: Seq<char>, b: Seq<char>)
    ensures
        ({
            let first = split_lines(pending + a);
            let second = split_lines(first.1 + b);
            let whole = split_lines(pending + a + b);
            &&& payloads(first.0) + payloads(second.0) == payloads(whole.0)
            &&& second.1 == whole.1
        }),
{
    lemma_split_lines_concat(pending + a, b);
    let first = split_lines(pending + a);
    let second = split_lines(first.1 + b);
    lemma_payloads_concat(first.0, second.0);
}

/// Splits a server-sent-event stream into the payloads of its `data:`
/// lines, holding back an incomplete last line until more arrives.
pub struct SseLines {
    pub pending: Vec<char>,
}

impl SseLines {
    pub fn new() -> (s: SseLines)
        ensures
            s.pending@ == Seq::<char>::empty(),
    {
        SseLines { pending: Vec::new() }
    }

    /// Append a chunk and return the payloads of the lines it completes.
    pub fn feed(&mut self, chunk: &str) -> (out: Vec<String>)
        ensures
            ({
                let (lines, rest) = split_lines(old(self).pending@ + chunk@);
                &&& final(self).pending@ == rest
                &&& out@.map_values(|s: String| s@) == payloads(lines)
            }),
    {
        let c = chars_of(chunk);
        let mut all: Vec<char> = Vec::new();
        push_range(&mut all, &self.pending, 0, self.pending.len());
        push_range(&mut all, &c, 0, c.len());
        assert(self.pending@.subrange(0, self.pending@.len() as int) =~= self.pending@);
        assert(c@.subrange(0, c@.len() as int) =~= c@);
        let ghost whole = all@;
        let n = all.len();
        let mut start: usize = 0;
        let mut out: Vec<String> = Vec::new();
        let ghost mut done_lines: Seq<Seq<char>> = Seq::empty();
        assert(whole.skip(0) =~= whole);
        loop
            invariant
                n == all@.len(),
                all@ == whole,
                start <= n,
                split_lines(whole) == (done_lines + split_lines(whole.skip(start as int)).0, split_lines(whole.skip(start as int)).1),
                out@.map_values(|s: String| s@) == payloads(done_lines),
            ensures
                start <= n,
                n == all@.len(),
                all@ == whole,
                split_lines(whole) == (done_lines + split_lines(whole.skip(start as int)).0, split_lines(whole.skip(start as int)).1),
                out@.map_values(|s: String| s@) == payloads(done_lines),
                first_char(whole.skip(start as int), '\n') is None,
            decreases n - start,
        {
            let ghost rest = whole.skip(start as int);
            let mut i = start;
            while i < n && all[i] != '\n'
                invariant
                    start <= i <= n,
                    n == all@.len(),
                    all@ == whole,
                    rest == whole.skip(start as int),
                    first_char(rest, '\n') == crate::text::first_char_from(rest, '\n', i - start),
                decreases n - i,
            {
                i = i + 1;
            }
            if i == n {
                proof {
                    assert(first_char(rest, '\n') is None);
                }
                break;
            }
            proof {
                assert(first_char(rest, '\n') == Some(i - start));
                assert(rest.skip(i - start + 1) =~= whole.skip(i + 1));
                assert(rest.take(i - start) =~= whole.subrange(start as int, i as int));
            }
            let mut end = i;
            while end > start && all[end - 1] == '\r'
                invariant
                    start <= end <= i,
                    n == all@.len(),
                    i < n,
                    all@ == whole,
                    trim_cr(whole.subrange(start as int, i as int)) == trim_cr(
                        whole.subrange(start as int, end as int),
                    ),
                decreases end - start,
            {
                assert(whole.subrange(start as int, end as int).drop_last() =~= whole.subrange(
                    start as int,
                    end - 1,
                ));
                end = end - 1;
            }
            let prefix: Vec<char> = vec!['d', 'a', 't', 'a', ':', ' '];
            assert(prefix@ =~= data_prefix());
            let ghost line = whole.subrange(start as int, i as int);
            let ghost l = whole.subrange(start as int, end as int);
            proof {
                assert(end == start || whole.subrange(start as int, end as int).last() != '\r');
                assert(trim_cr(l) == l);
            }
            if end - start >= 6 && occurs_at_exec(&all, &prefix, start) {
                let (a, b) = crate::text::trim_bounds(&all, start + 6, end);
                let p = crate::text::string_of_range(&all, a, b);
                proof {
                    assert(l.subrange(0, 6) =~= whole.subrange(start as int, start + 6));
                    assert(l.skip(6) =~= whole.subrange(start + 6, end as int));
                    assert(line_payload(line) == Some(p@));
                    assert(payloads(done_lines.push(line)) == payloads(done_lines).push(p@)) by {
                        assert(done_lines.push(line).drop_last() =~= done_lines);
                    }
                }
                let ghost om = out@.map_values(|s: String| s@);
                out.push(p);
                assert(out@.map_values(|s: String| s@) =~= om.push(p@));
            } else {
                proof {
                    if l.len() >= 6 {
                        assert(l.subrange(0, 6) =~= whole.subrange(start as int, start + 6));
                    }
                    assert(line_payload(line) is None);
                    assert(payloads(done_lines.push(line)) == payloads(done_lines)) by {
                        assert(done_lines.push(line).drop_last() =~= done_lines);
                    }
                }
            }
            proof {
                let r2 = split_lines(whole.skip(i + 1));
                assert(split_lines(rest) == (seq![line] + r2.0, r2.1));
                assert(done_lines + (seq![line] + r2.0) =~= done_lines.push(line) + r2.0);
                done_lines = done_lines.push(line);
            }
            start = i + 1;
        }
        let mut pending: Vec<char> = Vec::new();
        push_range(&mut pending, &all, start, n);
        proof {
            assert(pending@ =~= whole.skip(start as int));
            assert(split_lines(whole.skip(start as int)).0 =~= Seq::<Seq<char>>::empty());
            assert(done_lines + Seq::<Seq<char>>::empty() =~= done_lines);
        }
        self.pending = pending;
        out
    }
}


// ─── Provider payloads ──────────────────────────────────────────────────────

/// What to do with one payload of a provider stream.
#[derive(Debug, Clone)]
pub enum StreamStep {
    /// Nothing to hand on.
    Skip,
    /// A piece of the answer.
    Token(String),
    /// The answer is complete.
    Done,
    /// The provider reported an error.
    Failed(String),
}

/// The string at `choices[0].delta.content` of the JSON payload; `None`
/// when the payload does not parse or holds no string there.
pub open spec fn openai_delta_content(payload: Seq<char>) -> Option<Seq<char>> {
    match parsed_json(payload) {
        Some(v) => match json_member(v, "choices"@) {
            Some(choices) => match json_element(choices, 0) {
                Some(first) => match json_member(first, "delta"@) {
                    Some(delta) => member_str(delta, "content"@),
                    None => None,
                },
                None => None,
            },
            None => None,
        },
        None => None,
    }
}

/// The members `type`, `delta.text` and `error.message` of the JSON payload
/// (each `None` when missing or not a string); `None` when the payload does
/// not parse.
pub open spec fn anthropic_payload_fields(payload: Seq<char>) -> Option<
    (Option<Seq<char>>, Option<Seq<char>>, Option<Seq<char>>),
> {
    match parsed_json(payload) {
        Some(v) => Some(
            (
                member_str(v, "type"@),
                match json_member(v, "delta"@) {
                    Some(d) => member_str(d, "text"@),
                    None => None,
                },
                match json_member(v, "error"@) {
                    Some(e) => member_str(e, "message"@),
                    None => None,
                },
            ),
        ),
        None => None,
    }
}

pub open spec fn opt_view(o: Option<String>) -> Option<Seq<char>> {
    match o {
        Some(s) => Some(s@),
        None => None,
    }
}

/// `choices[0].delta.content` of an OpenAI payload.
fn openai_delta(payload: &str) -> (r: Option<String>)
    ensures
        opt_view(r) == openai_delta_content(payload@),
{
    let v = match parse_json(payload) {
        Some(v) => v,
        None => return None,
    };
    let choices = match json_get(&v, "choices") {
        Some(c) => c,
        None => return None,
    };
    let first = match json_at(&choices, 0) {
        Some(f) => f,
        None => return None,
    };
    match json_get(&first, "delta") {
        Some(d) => member_str_of(&d, "content"),
        None => None,
    }
}

/// `type`, `delta.text` and `error.message` of an Anthropic payload.
fn anthropic_fields(payload: &str) -> (r: Option<(Option<String>, Option<String>, Option<String>)>)
    ensures
        r matches Some(f) ==> anthropic_payload_fields(payload@) == Some(
            (opt_view(f.0), opt_view(f.1), opt_view(f.2)),
        ),
        r is None ==> anthropic_payload_fields(payload@) is None,
{
    let v = match parse_json(payload) {
        Some(v) => v,
        None => return None,
    };
    let kind = member_str_of(&v, "type");
    let text = match json_get(&v, "delta") {
        Some(d) => member_str_of(&d, "text"),
        None => None,
    };
    let message = match json_get(&v, "error") {
        Some(e) => member_str_of(&e, "message"),
        None => None,
    };
    Some((kind, text, message))
}

/// The step a payload of the OpenAI stream means: `[DONE]` ends it, a
/// non-empty delta content is a token, anything else is skipped.
pub open spec fn openai_step_spec(payload: Seq<char>) -> StreamStep {
    if payload == "[DONE]"@ {
        StreamStep::Done
    } else if payload.len() == 0 {
        StreamStep::Skip
    } else {
        match openai_delta_content(payload) {
            Some(t) => if t.len() > 0 {
                StreamStep::Token(t_string(t))
            } else {
                StreamStep::Skip
            },
            None => StreamStep::Skip,
        }
    }
}

/// Any `String` with view `t` (the step only carries it on).
pub open spec fn t_string(t: Seq<char>) -> String {
    choose|s: String| s@ == t
}

/// Whether `step` is `expected` up to the views of the strings it carries.
pub open spec fn same_step(step: StreamStep, expected: StreamStep) -> bool {
    match (step, expected) {
        (StreamStep::Skip, StreamStep::Skip) => true,
        (StreamStep::Done, StreamStep::Done) => true,
        (StreamStep::Token(a), StreamStep::Token(b)) => a@ == b@,
        (StreamStep::Failed(a), StreamStep::Failed(b)) => a@ == b@,
        _ => false,
    }
}

/// The step a payload of the Anthropic stream means: a non-empty
/// `content_block_delta` text is a token, `message_stop` ends it, `error`
/// fails it with its message (`unknown error` without one).
pub open spec fn anthropic_step_spec(payload: Seq<char>) -> StreamStep {
    if payload.len() == 0 {
        StreamStep::Skip
    } else {
        match anthropic_payload_fields(payload) {
            None => StreamStep::Skip,
            Some(f) => {
                let kind = match f.0 {
                    Some(k) => k,
                    None => Seq::empty(),
                };
                if kind == "content_block_delta"@ {
                    match f.1 {
                        Some(t) => if t.len() > 0 {
                            StreamStep::Token(t_string(t))
                        } else {
                            StreamStep::Skip
                        },
                        None => StreamStep::Skip,
                    }
                } else if kind == "message_stop"@ {
                    StreamStep::Done
                } else if kind == "error"@ {
                    match f.2 {
                        Some(m) => StreamStep::Failed(t_string(m)),
                        None => StreamStep::Failed(t_string("unknown error"@)),
                    }
                } else {
                    StreamStep::Skip
                }
            },
        }
    }
}

/// What one payload of the OpenAI chat-completions stream means.
pub fn openai_step(payload: &str) -> (step: StreamStep)
    ensures
        same_step(step, openai_step_spec(payload@)),
{
    let p = String::from_str(payload);
    let done = String::from_str("[DONE]");
    if p == done {
        return StreamStep::Done;
    }
    if payload.is_empty() {
        return StreamStep::Skip;
    }
    match openai_delta(payload) {
        Some(t) => {
            if !t.as_str().is_empty() {
                proof {
                    let w = t_string(t@);
                    assert(exists|s: String| s@ == t@);
                }
                StreamStep::Token(t)
            } else {
                StreamStep::Skip
            }
        },
        None => StreamStep::Skip,
    }
}

/// What one payload of the Anthropic messages stream means.
pub fn anthropic_step(payload: &str) -> (step: StreamStep)
    ensures
        same_step(step, anthropic_step_spec(payload@)),
{
    if payload.is_empty() {
        return StreamStep::Skip;
    }
    match anthropic_fields(payload) {
        None => StreamStep::Skip,
        Some((kind, text, msg)) => {
            let k = match kind {
                Some(k) => k,
                None => String::new(),
            };
            if k == String::from_str("content_block_delta") {
                match text {
                    Some(t) => {
                        if !t.as_str().is_empty() {
                            proof {
                                assert(exists|s: String| s@ == t@);
                            }
                            StreamStep::Token(t)
                        } else {
                            StreamStep::Skip
                        }
                    },
                    None => StreamStep::Skip,
                }
            } else if k == String::from_str("message_stop") {
                StreamStep::Done
            } else if k == String::from_str("error") {
                match msg {
                    Some(m) => {
                        proof {
                            assert(exists|s: String| s@ == m@);
                        }
                        StreamStep::Failed(m)
                    },
                    None => {
                        let m = String::from_str("unknown error");
                        proof {
                            assert(exists|s: String| s@ == m@);
                        }
                        StreamStep::Failed(m)
                    },
                }
            } else {
                StreamStep::Skip
            }
        },
    }
}

// ─── Collecting a whole answer ──────────────────────────────────────────────

/// Feed one stream event to an answer being collected: a token is appended;
/// the end yields the answer; an error yields a network error with its
/// message. `None` while the answer is still open.
pub fn collect_event(out: &mut String, ev: LlmEvent) -> (r: Option<Result<String, LlmError>>)
    ensures
        match ev {
            LlmEvent::Token { text } => final(out)@ == old(out)@ + text@ && r is None,
            LlmEvent::Done => final(out)@ == old(out)@ && (r matches Some(Ok(s)) && s@ == old(out)@),
            LlmEvent::Error { message } => final(out)@ == old(out)@ && (r matches Some(
                Err(LlmError::Network(m)),
            ) && m@ == message@),
        },
{
    match ev {
        LlmEvent::Token { text } => {
            out.append(text.as_str());
            None
        },
        LlmEvent::Done => Some(Ok(out.clone())),
        LlmEvent::Error { message } => Some(Err(LlmError::Network(message))),
    }
}

/// The turns Anthropic accepts: only `user` and `assistant` turns, in order.
pub open spec fn anthropic_turns(msgs: Seq<ChatMessage>) -> Seq<ChatMessage> {
    msgs.filter(|m: ChatMessage| m.role@ == "user"@ || m.role@ == "assistant"@)
}

/// Drop the turns Anthropic does not accept in its message list.
pub fn anthropic_messages(msgs: Vec<ChatMessage>) -> (out: Vec<ChatMessage>)
    ensures
        out@ == anthropic_turns(msgs@),
{
    let ghost all = msgs@;
    let ghost pred = |m: ChatMessage| m.role@ == "user"@ || m.role@ == "assistant"@;
    let n = msgs.len();
    let mut msgs = msgs;
    let mut out: Vec<ChatMessage> = Vec::new();
    let user = String::from_str("user");
    let assistant = String::from_str("assistant");
    let mut k: usize = 0;
    assert(msgs@.skip(0) =~= all);
    assert(all.take(0) =~= Seq::<ChatMessage>::empty());
    while k < n
        invariant
            k <= n,
            n == all.len(),
            msgs@ == all.skip(k as int),
            user@ == "user"@,
            assistant@ == "assistant"@,
            pred == (|m: ChatMessage| m.role@ == "user"@ || m.role@ == "assistant"@),
            out@ == all.take(k as int).filter(pred),
        decreases n - k,
    {
        let m = msgs.remove(0);
        assert(m == all[k as int]);
        assert(msgs@ =~= all.skip(k + 1));
        proof {
            assert(all.take(k + 1) =~= all.take(k as int).push(m));
            all.take(k as int).lemma_filter_push(m, pred);
        }
        if m.role == user || m.role == assistant {
            out.push(m);
        }
        k = k + 1;
    }
    assert(all.take(n as int) =~= all);
    out
}

} // verus!
