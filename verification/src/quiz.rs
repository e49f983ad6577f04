//! Quiz batches: vetting generated questions, balancing their answer
//! letters, reading answers and summarising a finished batch.
use crate::text::{
    chars_of, is_alphanumeric, is_whitespace, string_of, to_lowercase, to_uppercase, trim,
    trim_chars, trim_end, trim_start, alphanumeric_char, lowercase_chars, uppercase_chars_of, whitespace_char,
};
use crate::llm_json::{parse_json, parsed_json};
use crate::records::{member_str, member_str_of};
use vstd::prelude::*;

verus! {

broadcast use vstd::string::group_string_axioms;

// ─── Normalised question stems ─────────────────────────────────────────────

/// Lower-cased alphanumerics with runs of whitespace collapsed to one space
/// (other characters dropped), and whether the text so far ends in such a
/// space.
pub open spec fn normalize_state(s: Seq<char>) -> (Seq<char>, bool)
    decreases s.len(),
{
    if s.len() == 0 {
        (Seq::empty(), false)
    } else {
        let prev = normalize_state(s.drop_last());
        let ch = s.last();
        if alphanumeric_char(ch) {
            (prev.0 + lowercase_chars(ch), false)
        } else if whitespace_char(ch) {
            if !prev.1 {
                (prev.0.push(' '), true)
            } else {
                prev
            }
        } else {
            prev
        }
    }
}

/// A question stem reduced to the form duplicates are detected by.
pub open spec fn normalized_text(s: Seq<char>) -> Seq<char> {
    trim(normalize_state(s).0)
}

/// Reduce a question stem to lower-case words separated by single spaces,
/// so that re-worded punctuation or spacing does not hide a duplicate.
pub fn normalize_q(s: &str) -> (r: String)
    ensures
        r@ == normalized_text(s@),
{
    let v = chars_of(s);
    let n = v.len();
    let mut out: Vec<char> = Vec::new();
    let mut last_space = false;
    let mut i: usize = 0;
    while i < n
        invariant
            n == v@.len(),
            i <= n,
            normalize_state(v@.take(i as int)) == (out@, last_space),
        decreases n - i,
    {
        let ch = v[i];
        proof {
            assert(v@.take(i + 1).drop_last() =~= v@.take(i as int));
        }
        if is_alphanumeric(ch) {
            let lower = to_lowercase(ch);
            let ghost before = out@;
            let mut k: usize = 0;
            while k < lower.len()
                invariant
                    k <= lower@.len(),
                    out@ == before + lower@.take(k as int),
                decreases lower@.len() - k,
            {
                out.push(lower[k]);
                assert(lower@.take(k + 1) =~= lower@.take(k as int).push(lower@[k as int]));
                k = k + 1;
            }
            assert(lower@.take(lower@.len() as int) =~= lower@);
            last_space = false;
        } else if is_whitespace(ch) {
            if !last_space {
                out.push(' ');
                last_space = true;
            }
        }
        i = i + 1;
    }
    assert(v@.take(n as int) =~= v@);
    let t = trim_chars(&out);
    string_of(&t)
}

/// Single spaces between characters that are alphanumeric: every character
/// is a space or alphanumeric, and no two spaces stand side by side.
pub open spec fn single_spaced(t: Seq<char>) -> bool {
    &&& forall|i: int| 0 <= i < t.len() ==> #[trigger] t[i] == ' ' || alphanumeric_char(t[i])
    &&& forall|i: int, j: int|
        #![trigger t[i], t[j]]
        0 <= i && j == i + 1 && j < t.len() ==> !(t[i] == ' ' && t[j] == ' ')
}

/// Every alphanumeric character of `s` lower-cases to one or more
/// characters, each of them alphanumeric.
pub open spec fn lowercases_alphanumeric(s: Seq<char>) -> bool {
    forall|i: int|
        0 <= i < s.len() && alphanumeric_char(#[trigger] s[i]) ==> {
            let l = lowercase_chars(s[i]);
            &&& l.len() >= 1
            &&& forall|k: int| 0 <= k < l.len() ==> alphanumeric_char(#[trigger] l[k])
        }
}

proof fn lemma_state_single_spaced(s: Seq<char>)
    requires
        lowercases_alphanumeric(s),
    ensures
        single_spaced(normalize_state(s).0),
        normalize_state(s).1 <==> (normalize_state(s).0.len() > 0 && normalize_state(s).0.last()
            == ' '),
    decreases s.len(),
{
    if s.len() > 0 {
        let p = s.drop_last();
        assert forall|i: int| 0 <= i < p.len() && alphanumeric_char(#[trigger] p[i]) implies {
            let l = lowercase_chars(p[i]);
            &&& l.len() >= 1
            &&& forall|k: int| 0 <= k < l.len() ==> alphanumeric_char(#[trigger] l[k])
        } by {
            assert(p[i] == s[i]);
        }
        lemma_state_single_spaced(p);
        let prev = normalize_state(p);
        let ch = s.last();
        assert(ch == s[s.len() - 1]);
        if alphanumeric_char(ch) {
            let l = lowercase_chars(ch);
            let o = prev.0 + l;
            assert(!alphanumeric_char(' '));
            assert forall|i: int| 0 <= i < o.len() implies #[trigger] o[i] == ' ' || alphanumeric_char(o[i]) by {
                if i >= prev.0.len() {
                    assert(o[i] == l[i - prev.0.len()]);
                }
            }
            assert forall|i: int, j: int| 0 <= i && j == i + 1 && j < o.len() implies !(#[trigger] o[i] == ' ' && #[trigger] o[j] == ' ') by {
                if j >= prev.0.len() {
                    assert(o[j] == l[j - prev.0.len()]);
                    assert(alphanumeric_char(l[j - prev.0.len()]));
                } else {
                    assert(o[i] == prev.0[i] && o[j] == prev.0[j]);
                }
            }
            assert(o.last() == l[l.len() - 1]);
        } else if whitespace_char(ch) {
            if !prev.1 {
                let o = prev.0.push(' ');
                assert forall|i: int| 0 <= i < o.len() implies #[trigger] o[i] == ' ' || alphanumeric_char(o[i]) by {
                    if i < prev.0.len() {
                        assert(o[i] == prev.0[i]);
                    }
                }
                assert forall|i: int, j: int| 0 <= i && j == i + 1 && j < o.len() implies !(#[trigger] o[i] == ' ' && #[trigger] o[j] == ' ') by {
                    if j < prev.0.len() {
                        assert(o[i] == prev.0[i] && o[j] == prev.0[j]);
                    } else {
                        assert(o[i] == prev.0.last());
                    }
                }
            }
        }
    }
}

proof fn lemma_trim_start_suffix(t: Seq<char>) -> (k: int)
    ensures
        0 <= k <= t.len(),
        trim_start(t) == t.subrange(k, t.len() as int),
        k < t.len() ==> !whitespace_char(t[k]),
        forall|i: int| 0 <= i < k ==> whitespace_char(#[trigger] t[i]),
    decreases t.len(),
{
    if t.len() > 0 && whitespace_char(t[0]) {
        let k1 = lemma_trim_start_suffix(t.drop_first());
        assert(t.drop_first().subrange(k1, t.len() - 1) =~= t.subrange(k1 + 1, t.len() as int));
        assert forall|i: int| 0 <= i < k1 + 1 implies whitespace_char(#[trigger] t[i]) by {
            if i > 0 {
                assert(t[i] == t.drop_first()[i - 1]);
            }
        }
        k1 + 1
    } else {
        assert(t.subrange(0, t.len() as int) =~= t);
        0
    }
}

proof fn lemma_trim_end_prefix(t: Seq<char>) -> (k: int)
    ensures
        0 <= k <= t.len(),
        trim_end(t) == t.subrange(0, k),
        k > 0 ==> !whitespace_char(t[k - 1]),
        forall|i: int| k <= i < t.len() ==> whitespace_char(#[trigger] t[i]),
    decreases t.len(),
{
    if t.len() > 0 && whitespace_char(t.last()) {
        let k1 = lemma_trim_end_prefix(t.drop_last());
        assert(t.drop_last().subrange(0, k1) =~= t.subrange(0, k1));
        assert forall|i: int| k1 <= i < t.len() implies whitespace_char(#[trigger] t[i]) by {
            if i < t.len() - 1 {
                assert(t[i] == t.drop_last()[i]);
            }
        }
        k1
    } else {
        assert(t.subrange(0, t.len() as int) =~= t);
        t.len() as int
    }
}

proof fn lemma_trim_single_spaced(t: Seq<char>)
    requires
        single_spaced(t),
    ensures
        single_spaced(trim(t)),
        trim(t).len() > 0 ==> trim(t)[0] != ' ' && trim(t).last() != ' ',
{
    let a = lemma_trim_start_suffix(t);
    let u = t.subrange(a, t.len() as int);
    let b = lemma_trim_end_prefix(u);
    let r = u.subrange(0, b);
    assert(trim(t) == r);
    assert forall|i: int| 0 <= i < r.len() implies #[trigger] r[i] == ' ' || alphanumeric_char(r[i]) by {
        assert(r[i] == t[a + i]);
    }
    assert forall|i: int, j: int| 0 <= i && j == i + 1 && j < r.len() implies !(#[trigger] r[i] == ' ' && #[trigger] r[j] == ' ') by {
        assert(r[i] == t[a + i] && r[j] == t[a + j]);
    }
    if r.len() > 0 {
        assert(r[0] == u[0]);
        assert(r.last() == u[b - 1]);
    }
}

/// The stem a question normalises to is a run of alphanumeric words
/// separated by single spaces, with no space at either end, for every stem
/// whose alphanumeric characters lower-case to alphanumeric characters
/// (`char::to_lowercase` yields one or more characters).
pub proof fn lemma_normalized_single_spaced(s: Seq<char>)
    requires
        lowercases_alphanumeric(s),
    ensures
        single_spaced(normalized_text(s)),
        normalized_text(s).len() > 0 ==> normalized_text(s)[0] != ' '
            && normalized_text(s).last() != ' ',
{
    lemma_state_single_spaced(s);
    lemma_trim_single_spaced(normalize_state(s).0);
}

/// Whether every character of `s` is ASCII.
pub open spec fn all_ascii(s: Seq<char>) -> bool {
    forall|i: int| 0 <= i < s.len() ==> (#[trigger] s[i] as u32) < 128
}

proof fn lemma_state_of_lower_words(r: Seq<char>, k: int)
    requires
        single_spaced(r),
        forall|i: int| 0 <= i < r.len() ==> lower_word_char(#[trigger] r[i]),
        r.len() > 0 ==> r[0] != ' ',
        0 <= k <= r.len(),
    ensures
        normalize_state(r.take(k)) == (r.take(k), k > 0 && r[k - 1] == ' '),
    decreases k,
{
    if k > 0 {
        lemma_state_of_lower_words(r, k - 1);
        assert(r.take(k).drop_last() =~= r.take(k - 1));
        let c = r[k - 1];
        assert(r.take(k).last() == c);
        assert(lower_word_char(c));
        if c == ' ' {
            assert(whitespace_char(c) && !alphanumeric_char(c));
            if k >= 2 {
                assert(!(r[k - 2] == ' ' && r[k - 1] == ' '));
            }
            assert(r.take(k - 1).push(' ') =~= r.take(k));
        } else {
            assert(alphanumeric_char(c));
            assert(lowercase_chars(c) == seq![c]);
            assert(r.take(k - 1) + seq![c] =~= r.take(k));
        }
    }
}

/// A space, a lower-case ASCII letter or an ASCII digit.
pub open spec fn lower_word_char(c: char) -> bool {
    c == ' ' || ('a' <= c && c <= 'z') || ('0' <= c && c <= '9')
}

proof fn lemma_state_lower_words(s: Seq<char>)
    requires
        all_ascii(s),
    ensures
        forall|i: int|
            0 <= i < normalize_state(s).0.len() ==> lower_word_char(
                #[trigger] normalize_state(s).0[i],
            ),
    decreases s.len(),
{
    if s.len() > 0 {
        let p = s.drop_last();
        assert forall|i: int| 0 <= i < p.len() implies (#[trigger] p[i] as u32) < 128 by {
            assert(p[i] == s[i]);
        }
        lemma_state_lower_words(p);
        let prev = normalize_state(p).0;
        let ch = s.last();
        assert(ch == s[s.len() - 1]);
        assert((ch as u32) < 128);
        let o = normalize_state(s).0;
        if alphanumeric_char(ch) {
            let l = lowercase_chars(ch);
            assert(l.len() == 1);
            if 'A' <= ch && ch <= 'Z' {
                assert(l[0] == ((ch as u32) + 32) as char);
            }
            assert(lower_word_char(l[0]));
            assert forall|i: int| 0 <= i < o.len() implies lower_word_char(#[trigger] o[i]) by {
                if i < prev.len() {
                    assert(o[i] == prev[i]);
                } else {
                    assert(o[i] == l[0]);
                }
            }
        } else if whitespace_char(ch) && !normalize_state(p).1 {
            assert forall|i: int| 0 <= i < o.len() implies lower_word_char(#[trigger] o[i]) by {
                if i < prev.len() {
                    assert(o[i] == prev[i]);
                }
            }
        }
    }
}

proof fn lemma_normalized_lower_ascii(s: Seq<char>)
    requires
        all_ascii(s),
    ensures
        forall|i: int|
            0 <= i < normalized_text(s).len() ==> lower_word_char(#[trigger] normalized_text(s)[i]),
{
    lemma_state_lower_words(s);
    let t = normalize_state(s).0;
    let a = lemma_trim_start_suffix(t);
    let u = t.subrange(a, t.len() as int);
    let b = lemma_trim_end_prefix(u);
    let r = u.subrange(0, b);
    assert(normalized_text(s) == r);
    assert forall|i: int| 0 <= i < r.len() implies lower_word_char(#[trigger] r[i]) by {
        assert(r[i] == t[a + i]);
    }
}

/// Normalising an ASCII stem a second time changes nothing.
pub proof fn lemma_normalize_idempotent(s: Seq<char>)
    requires
        all_ascii(s),
    ensures
        normalized_text(normalized_text(s)) == normalized_text(s),
{
    assert forall|i: int| 0 <= i < s.len() && alphanumeric_char(#[trigger] s[i]) implies {
        let l = lowercase_chars(s[i]);
        &&& l.len() >= 1
        &&& forall|k: int| 0 <= k < l.len() ==> alphanumeric_char(#[trigger] l[k])
    } by {
        assert((s[i] as u32) < 128);
        let l = lowercase_chars(s[i]);
        assert(l.len() == 1);
        if 'A' <= s[i] && s[i] <= 'Z' {
            assert(l[0] == ((s[i] as u32) + 32) as char);
        }
    }
    lemma_normalized_single_spaced(s);
    let r = normalized_text(s);
    lemma_normalized_lower_ascii(s);
    lemma_state_of_lower_words(r, r.len() as int);
    assert(r.take(r.len() as int) =~= r);
    let a = lemma_trim_start_suffix(r);
    if r.len() > 0 {
        assert(lower_word_char(r[0]) && !whitespace_char(r[0]));
        assert(lower_word_char(r[r.len() - 1]) && !whitespace_char(r[r.len() - 1]));
    }
    let u = r.subrange(a, r.len() as int);
    assert(a == 0);
    assert(u =~= r);
    let b = lemma_trim_end_prefix(u);
    assert(b == r.len());
    assert(u.subrange(0, b) =~= r);
}

// ─── Answer letters ─────────────────────────────────────────────────────────

/// `str::to_uppercase`: every character upper-cased on its own.
pub open spec fn upper_text(s: Seq<char>) -> Seq<char>
    decreases s.len(),
{
    if s.len() == 0 {
        Seq::empty()
    } else {
        upper_text(s.drop_last()) + uppercase_chars_of(s.last())
    }
}

pub open spec fn is_option_letter(c: char) -> bool {
    c == 'A' || c == 'B' || c == 'C' || c == 'D'
}

/// The answer letter a reply names: the reply trimmed and upper-cased, when
/// that is exactly one of `A`, `B`, `C`, `D`.
pub open spec fn answer_letter(s: Seq<char>) -> Option<char> {
    let t = upper_text(trim(s));
    if t.len() == 1 && is_option_letter(t[0]) {
        Some(t[0])
    } else {
        None
    }
}

/// The characters of `s` upper-cased.
pub fn uppercase_chars(v: &Vec<char>) -> (u: Vec<char>)
    ensures
        u@ == upper_text(v@),
{
    let n = v.len();
    let mut out: Vec<char> = Vec::new();
    let mut i: usize = 0;
    while i < n
        invariant
            n == v@.len(),
            i <= n,
            out@ == upper_text(v@.take(i as int)),
        decreases n - i,
    {
        let up = to_uppercase(v[i]);
        proof {
            assert(v@.take(i + 1).drop_last() =~= v@.take(i as int));
        }
        let ghost before = out@;
        let mut k: usize = 0;
        while k < up.len()
            invariant
                k <= up@.len(),
                out@ == before + up@.take(k as int),
            decreases up@.len() - k,
        {
            out.push(up[k]);
            assert(up@.take(k + 1) =~= up@.take(k as int).push(up@[k as int]));
            k = k + 1;
        }
        assert(up@.take(up@.len() as int) =~= up@);
        i = i + 1;
    }
    assert(v@.take(n as int) =~= v@);
    out
}

/// The option letter a submitted answer names, if it names one.
pub fn parse_answer_letter(s: &str) -> (r: Option<char>)
    ensures
        r == answer_letter(s@),
{
    let v = chars_of(s);
    let t = trim_chars(&v);
    let u = uppercase_chars(&t);
    if u.len() == 1 && (u[0] == 'A' || u[0] == 'B' || u[0] == 'C' || u[0] == 'D') {
        Some(u[0])
    } else {
        None
    }
}


// ─── Balancing the answer letters ──────────────────────────────────────────

#[verifier::external_type_specification]
#[verifier::external_body]
pub struct ExThreadRng(rand::rngs::ThreadRng);

/// `rand::thread_rng`: the thread-local random number generator.
#[verifier::external_body]
fn thread_rng() -> rand::rngs::ThreadRng {
    rand::thread_rng()
}

/// `SliceRandom::shuffle`: puts the elements in a random order. Whatever
/// order comes out, it holds the same elements as before.
#[verifier::external_body]
fn shuffle<T>(v: &mut Vec<T>, rng: &mut rand::rngs::ThreadRng)
    ensures
        final(v)@.to_multiset() == old(v)@.to_multiset(),
{
    rand::seq::SliceRandom::shuffle(v.as_mut_slice(), rng)
}

/// The string members `"A"`, `"B"`, `"C"` and `"D"` of the JSON text
/// `json` (`None` for a member that is missing or not a string), or `None`
/// when `json` is not one JSON document.
pub open spec fn json_option_texts(json: Seq<char>) -> Option<Seq<Option<Seq<char>>>> {
    match parsed_json(json) {
        Some(v) => Some(
            seq![member_str(v, "A"@), member_str(v, "B"@), member_str(v, "C"@), member_str(v, "D"@)],
        ),
        None => None,
    }
}

/// The JSON text `serde_json` writes for the object
/// `{"A": a, "B": b, "C": c, "D": d}`.
pub uninterp spec fn options_object_text(a: Seq<char>, b: Seq<char>, c: Seq<char>, d: Seq<char>) -> Seq<char>;

pub open spec fn opt_text(o: Option<String>) -> Option<Seq<char>> {
    match o {
        Some(s) => Some(s@),
        None => None,
    }
}

/// The four option texts of a question's options JSON.
fn option_texts(json: &str) -> (r: Option<Vec<Option<String>>>)
    ensures
        r matches Some(v) ==> v@.len() == 4 && json_option_texts(json@) == Some(
            v@.map_values(|o: Option<String>| opt_text(o)),
        ),
        r is None ==> json_option_texts(json@) is None,
{
    match parse_json(json) {
        Some(v) => {
            let mut out: Vec<Option<String>> = Vec::new();
            out.push(member_str_of(&v, "A"));
            out.push(member_str_of(&v, "B"));
            out.push(member_str_of(&v, "C"));
            out.push(member_str_of(&v, "D"));
            proof {
                let tv = out@.map_values(|o: Option<String>| opt_text(o));
                assert(tv =~= seq![
                    member_str(v, "A"@),
                    member_str(v, "B"@),
                    member_str(v, "C"@),
                    member_str(v, "D"@),
                ]);
            }
            Some(out)
        },
        None => None,
    }
}

/// `serde_json::to_string` of the object `{"A": a, "B": b, "C": c, "D": d}`
/// built as a `serde_json::Map`; reading that text back with
/// `serde_json::from_str` finds the four strings under their letters.
#[verifier::external_body]
fn options_json(a: &str, b: &str, c: &str, d: &str) -> (r: String)
    ensures
        r@ == options_object_text(a@, b@, c@, d@),
        json_option_texts(r@) == Some(seq![Some(a@), Some(b@), Some(c@), Some(d@)]),
{
    let mut m = serde_json::Map::with_capacity(4);
    m.insert("A".to_string(), serde_json::Value::String(a.to_string()));
    m.insert("B".to_string(), serde_json::Value::String(b.to_string()));
    m.insert("C".to_string(), serde_json::Value::String(c.to_string()));
    m.insert("D".to_string(), serde_json::Value::String(d.to_string()));
    serde_json::Value::Object(m).to_string()
}

/// A generated question as stored: id, domain, subtopic, difficulty, stem,
/// options (JSON), correct letter, explanation.
pub type QuestionRow = (String, u8, Option<String>, u8, String, String, String, Option<String>);

pub open spec fn letters() -> Seq<char> {
    seq!['A', 'B', 'C', 'D']
}

pub open spec fn letter_index(l: char) -> int {
    if l == 'A' {
        0
    } else if l == 'B' {
        1
    } else if l == 'C' {
        2
    } else {
        3
    }
}

/// `A, B, C, D, A, B, …` for `n` questions.
pub open spec fn round_robin(n: nat) -> Seq<char> {
    Seq::new(n, |i: int| letters()[i % 4])
}

/// The letter a stored answer starts with, `A` for an empty one.
pub open spec fn first_letter(c: Seq<char>) -> char {
    if c.len() > 0 {
        c[0]
    } else {
        'A'
    }
}

pub open spec fn text_or_empty(t: Option<Seq<char>>) -> Seq<char> {
    match t {
        Some(x) => x,
        None => Seq::empty(),
    }
}

/// The four option texts, a missing one read as empty.
pub open spec fn four_texts(texts: Seq<Option<Seq<char>>>) -> Seq<Seq<char>> {
    Seq::new(4, |i: int| text_or_empty(texts[i]))
}

/// The text under the key `l` of the options JSON `json`, empty when the
/// member is missing or not a string, or the text does not parse.
pub open spec fn answer_text(json: Seq<char>, l: char) -> Seq<char> {
    match parsed_json(json) {
        Some(v) => text_or_empty(member_str(v, seq![l])),
        None => Seq::empty(),
    }
}

proof fn lemma_answer_text_of_option(json: Seq<char>, l: char)
    requires
        is_option_letter(l),
        json_option_texts(json) is Some,
    ensures
        answer_text(json, l) == four_texts(json_option_texts(json)->0)[letter_index(l)],
{
    reveal_strlit("A");
    reveal_strlit("B");
    reveal_strlit("C");
    reveal_strlit("D");
    assert("A"@ =~= seq!['A']);
    assert("B"@ =~= seq!['B']);
    assert("C"@ =~= seq!['C']);
    assert("D"@ =~= seq!['D']);
}

fn answer_text_exec(json: &str, l: char) -> (s: String)
    ensures
        s@ == answer_text(json@, l),
{
    match parse_json(json) {
        Some(v) => {
            let mut key = String::new();
            crate::text::push_char(&mut key, l);
            assert(key@ =~= seq![l]);
            let m = member_str_of(&v, key.as_str());
            text_or_empty_exec(&m)
        },
        None => String::new(),
    }
}

/// `new` is `old` with its correct answer moved to letter `target`: the
/// correct text sits at `target`, the other texts fill the remaining slots,
/// and nothing else changes. A row whose options do not parse stays as is.
pub open spec fn rebalanced_row(old: QuestionRow, new: QuestionRow, target: char) -> bool {
    &&& new.0 == old.0
    &&& new.1 == old.1
    &&& new.2 == old.2
    &&& new.3 == old.3
    &&& new.4 == old.4
    &&& new.7 == old.7
    &&& match json_option_texts(old.5@) {
        None => new.5 == old.5 && new.6 == old.6,
        Some(texts) => {
            let cur = first_letter(old.6@);
            &&& new.6@ == seq![target]
            &&& json_option_texts(new.5@) matches Some(new_texts) && {
                &&& new_texts.len() == 4
                &&& forall|m: int| 0 <= m < 4 ==> (#[trigger] new_texts[m]) is Some
                &&& answer_text(new.5@, target) == answer_text(old.5@, cur)
                &&& is_option_letter(cur) ==> four_texts(new_texts).to_multiset() == four_texts(
                    texts,
                ).to_multiset()
            }
            &&& exists|nt: Seq<Seq<char>>|
                {
                    &&& nt.len() == 4
                    &&& new.5@ == options_object_text(nt[0], nt[1], nt[2], nt[3])
                    &&& nt[letter_index(target)] == answer_text(old.5@, cur)
                    &&& is_option_letter(cur) ==> nt.to_multiset() == four_texts(
                        texts,
                    ).to_multiset()
                }
        },
    }
}

fn letter_at(j: usize) -> (l: char)
    requires
        j < 4,
    ensures
        l == letters()[j as int],
        is_option_letter(l),
        letter_index(l) == j,
{
    if j == 0 {
        'A'
    } else if j == 1 {
        'B'
    } else if j == 2 {
        'C'
    } else {
        'D'
    }
}

fn text_or_empty_exec(o: &Option<String>) -> (s: String)
    ensures
        s@ == text_or_empty(opt_text(*o)),
{
    match o {
        Some(s) => s.clone(),
        None => String::new(),
    }
}

/// The positions `0 .. n` of a list of `n` items, in order.
pub open spec fn index_range(n: nat) -> Seq<usize> {
    Seq::new(n, |i: int| i as usize)
}

/// `order` lists each position `0 .. n` exactly once.
pub open spec fn is_index_order(order: Seq<usize>, n: int) -> bool {
    &&& order.len() == n
    &&& forall|i: int| 0 <= i < n ==> #[trigger] order[i] < n
    &&& forall|i: int, j: int| 0 <= i < j < n ==> #[trigger] order[i] != #[trigger] order[j]
}

/// The texts a question's correct answer is not: the other three options,
/// or all four when the stored letter is no option letter.
pub open spec fn distractor_texts(all4: Seq<Seq<char>>, cur: char) -> Seq<Seq<char>> {
    if is_option_letter(cur) {
        all4.remove(letter_index(cur))
    } else {
        all4
    }
}

/// The four new option texts: the distractors taken in `order` fill the
/// slots other than `target`, which gets the correct text.
pub open spec fn arranged_texts(
    distractors: Seq<Seq<char>>,
    correct: Seq<char>,
    order: Seq<usize>,
    target: char,
) -> Seq<Seq<char>> {
    Seq::new(3, |i: int| distractors[order[i] as int]).insert(letter_index(target), correct)
}

/// `new` is `old` with its correct answer moved to `target` and its
/// distractors placed in `order`. A row whose options do not parse, or an
/// `order` that is not a permutation of the distractors, leaves the row as
/// it is.
pub open spec fn arranged_row(old: QuestionRow, new: QuestionRow, target: char, order: Seq<usize>) -> bool {
    match json_option_texts(old.5@) {
        None => new == old,
        Some(texts) => {
            let cur = first_letter(old.6@);
            let d = distractor_texts(four_texts(texts), cur);
            if is_index_order(order, d.len() as int) {
                let nt = arranged_texts(d, answer_text(old.5@, cur), order, target);
                &&& new.0 == old.0
                &&& new.1 == old.1
                &&& new.2 == old.2
                &&& new.3 == old.3
                &&& new.4 == old.4
                &&& new.7 == old.7
                &&& new.6@ == seq![target]
                &&& new.5@ == options_object_text(nt[0], nt[1], nt[2], nt[3])
                &&& json_option_texts(new.5@) == Some(
                    seq![Some(nt[0]), Some(nt[1]), Some(nt[2]), Some(nt[3])],
                )
            } else {
                new == old
            }
        },
    }
}

fn is_index_order_exec(order: &Vec<usize>, n: usize) -> (b: bool)
    ensures
        b == is_index_order(order@, n as int),
{
    if order.len() != n {
        return false;
    }
    let mut i: usize = 0;
    while i < n
        invariant
            order@.len() == n,
            i <= n,
            forall|a: int| 0 <= a < i ==> #[trigger] order@[a] < n,
            forall|a: int, b: int| 0 <= a < b < n && a < i ==> #[trigger] order@[a] != #[trigger] order@[b],
        decreases n - i,
    {
        if order[i] >= n {
            return false;
        }
        let mut j: usize = i + 1;
        while j < n
            invariant
                order@.len() == n,
                i < n,
                i < j <= n,
                forall|b: int| i < b < j ==> order@[i as int] != #[trigger] order@[b],
            decreases n - j,
        {
            if order[i] == order[j] {
                return false;
            }
            j = j + 1;
        }
        i = i + 1;
    }
    true
}

/// Moves the correct answer of `row` (the text under its stored letter) to
/// the letter `target` and fills the other three slots with the
/// distractors taken in `order`, a permutation of the distractor positions
/// (the options in letter order without the correct one, or all four when
/// the stored letter is no option letter).
/// A row whose options do not parse, or an `order` that is not such a
/// permutation, comes back unchanged.
#[verifier::rlimit(40)]
pub fn arrange_row(row: QuestionRow, target: char, order: &Vec<usize>) -> (new: QuestionRow)
    requires
        is_option_letter(target),
    ensures
        arranged_row(row, new, target, order@),
{
    let (id, domain, subtopic, difficulty, question, opts_json, correct, explanation) = row;
    let texts = match option_texts(opts_json.as_str()) {
        Some(t) => t,
        None => {
            return (id, domain, subtopic, difficulty, question, opts_json, correct, explanation);
        },
    };
    let ghost tspec = texts@.map_values(|o: Option<String>| opt_text(o));
    let ghost all4 = four_texts(tspec);
    let cv = chars_of(correct.as_str());
    let cur = if cv.len() > 0 {
        cv[0]
    } else {
        'A'
    };
    assert(cur == first_letter(correct@));
    let mut all: Vec<String> = Vec::new();
    let mut j: usize = 0;
    while j < 4
        invariant
            j <= 4,
            texts@.len() == 4,
            tspec == texts@.map_values(|o: Option<String>| opt_text(o)),
            all4 == four_texts(tspec),
            all@.len() == j,
            forall|m: int| 0 <= m < j ==> (#[trigger] all@[m])@ == all4[m],
        decreases 4 - j,
    {
        all.push(text_or_empty_exec(&texts[j]));
        j = j + 1;
    }
    let ghost all_view = all@.map_values(|s: String| s@);
    assert(all_view =~= all4);
    let valid = cur == 'A' || cur == 'B' || cur == 'C' || cur == 'D';
    let c: usize = if cur == 'A' {
        0
    } else if cur == 'B' {
        1
    } else if cur == 'C' {
        2
    } else {
        3
    };
    let correct_text = answer_text_exec(opts_json.as_str(), cur);
    let mut distract: Vec<String> = Vec::new();
    let mut j: usize = 0;
    while j < 4
        invariant
            j <= 4,
            all@.len() == 4,
            distract@.len() == j,
            forall|m: int| 0 <= m < j ==> #[trigger] distract@[m] == all@[m],
        decreases 4 - j,
    {
        distract.push(all[j].clone());
        j = j + 1;
    }
    assert(distract@ =~= all@);
    if valid {
        distract.remove(c);
    }
    let ghost dspec = distractor_texts(all4, cur);
    assert(distract@.map_values(|s: String| s@) =~= dspec) by {
        if valid {
            assert(distract@ == all@.remove(c as int));
            assert(letter_index(cur) == c);
        }
    }
    if !is_index_order_exec(order, distract.len()) {
        return (id, domain, subtopic, difficulty, question, opts_json, correct, explanation);
    }
    let mut picked: Vec<String> = Vec::new();
    let mut j: usize = 0;
    while j < 3
        invariant
            j <= 3,
            distract@.len() >= 3,
            is_index_order(order@, distract@.len() as int),
            picked@.len() == j,
            forall|m: int| 0 <= m < j ==> #[trigger] picked@[m] == distract@[order@[m] as int],
        decreases 3 - j,
    {
        picked.push(distract[order[j]].clone());
        j = j + 1;
    }
    let t = if target == 'A' {
        0
    } else if target == 'B' {
        1
    } else if target == 'C' {
        2
    } else {
        3
    };
    let mut nt: Vec<String> = Vec::new();
    let mut k: usize = 0;
    let mut j: usize = 0;
    while j < 4
        invariant
            j <= 4,
            t < 4,
            picked@.len() == 3,
            k == if j <= t { j } else { (j - 1) as usize },
            j > t ==> nt@ == picked@.take(k as int).insert(t as int, correct_text),
            j <= t ==> nt@ == picked@.take(k as int),
        decreases 4 - j,
    {
        if j == t {
            nt.push(correct_text.clone());
            assert(nt@ =~= picked@.take(k as int).insert(t as int, correct_text));
        } else {
            nt.push(picked[k].clone());
            if j < t {
                assert(nt@ =~= picked@.take(k + 1));
            } else {
                assert(nt@ =~= picked@.take(k + 1).insert(t as int, correct_text));
            }
            k = k + 1;
        }
        j = j + 1;
    }
    let new_json = options_json(nt[0].as_str(), nt[1].as_str(), nt[2].as_str(), nt[3].as_str());
    let mut new_correct = String::new();
    crate::text::push_char(&mut new_correct, target);
    proof {
        assert(picked@.take(3) =~= picked@);
        let ntv = nt@.map_values(|s: String| s@);
        let want = arranged_texts(dspec, answer_text(opts_json@, cur), order@, target);
        assert(letter_index(target) == t);
        assert(Seq::new(3, |i: int| dspec[order@[i] as int]) =~= picked@.map_values(|s: String| s@));
        assert(ntv =~= want);
        assert(new_correct@ =~= seq![target]);
    }
    (id, domain, subtopic, difficulty, question, new_json, new_correct, explanation)
}

/// Moves the correct answer of one row to `target` and shuffles the
/// distractors into the other slots.
fn rebalance_row(row: QuestionRow, target: char, rng: &mut rand::rngs::ThreadRng) -> (new: QuestionRow)
    requires
        is_option_letter(target),
    ensures
        rebalanced_row(row, new, target),
{
    let cv = chars_of(row.6.as_str());
    let cur = if cv.len() > 0 {
        cv[0]
    } else {
        'A'
    };
    assert(cur == first_letter(row.6@));
    let m: usize = if cur == 'A' || cur == 'B' || cur == 'C' || cur == 'D' {
        3
    } else {
        4
    };
    let mut order: Vec<usize> = Vec::new();
    let mut i: usize = 0;
    while i < m
        invariant
            i <= m,
            order@ == index_range(i as nat),
        decreases m - i,
    {
        order.push(i);
        assert(order@ =~= index_range((i + 1) as nat));
        i = i + 1;
    }
    let ghost base = order@;
    shuffle(&mut order, rng);
    proof {
        lemma_shuffled_index_order(base, order@, m as int);
    }
    let ghost old_row = row;
    let new = arrange_row(row, target, &order);
    proof {
        lemma_arranged_is_rebalanced(old_row, new, target, order@);
    }
    new
}

proof fn lemma_shuffled_index_order(base: Seq<usize>, order: Seq<usize>, m: int)
    requires
        0 <= m <= 4,
        base == index_range(m as nat),
        order.to_multiset() == base.to_multiset(),
    ensures
        is_index_order(order, m),
        order.to_multiset() == index_range(m as nat).to_multiset(),
{
    broadcast use vstd::seq_lib::group_to_multiset_ensures;

    assert(order.len() == m) by {
        assert(order.len() == order.to_multiset().len());
        assert(base.len() == base.to_multiset().len());
    }
    assert forall|i: int| 0 <= i < m implies #[trigger] order[i] < m by {
        assert(order.contains(order[i]));
        assert(base.to_multiset().count(order[i]) > 0);
        assert(base.contains(order[i]));
    }
    assert forall|i: int, j: int| 0 <= i < base.len() && 0 <= j < base.len() && i != j implies base[i] != base[j] by {
        assert(base[i] == i as usize && base[j] == j as usize);
    }
    assert(base.no_duplicates());
    base.lemma_multiset_has_no_duplicates();
    assert forall|x: usize| order.to_multiset().contains(x) implies order.to_multiset().count(x) == 1 by {
        assert(base.to_multiset().contains(x));
    }
    order.lemma_multiset_has_no_duplicates_conv();
}

/// Taking the items of `d` in an order that lists each position once keeps
/// the same items.
proof fn lemma_permuted_multiset<T>(d: Seq<T>, order: Seq<usize>)
    requires
        d.len() <= usize::MAX,
        order.to_multiset() == index_range(d.len()).to_multiset(),
    ensures
        order.len() == d.len(),
        Seq::new(d.len(), |i: int| d[order[i] as int]).to_multiset() == d.to_multiset(),
    decreases d.len(),
{
    broadcast use vstd::seq_lib::group_to_multiset_ensures;
    broadcast use vstd::multiset::group_multiset_axioms;

    assert(order.len() == d.len()) by {
        assert(order.len() == order.to_multiset().len());
        assert(index_range(d.len()).len() == index_range(d.len()).to_multiset().len());
    }
    let n = d.len();
    if n == 0 {
        assert(Seq::new(0, |i: int| d[order[i] as int]) =~= d);
    } else {
        let top = (n - 1) as usize;
        assert(index_range(n) =~= index_range((n - 1) as nat).push(top));
        assert(index_range(n).to_multiset().count(top) > 0) by {
            assert(index_range(n).contains(top)) by {
                assert(index_range(n)[n - 1] == top);
            }
        }
        assert(order.contains(top));
        let k = choose|k: int| 0 <= k < order.len() && order[k] == top;
        let rest = order.remove(k);
        assert(rest.to_multiset() =~= index_range((n - 1) as nat).to_multiset());
        let dl = d.drop_last();
        lemma_permuted_multiset(dl, rest);
        let sh = Seq::new(n, |i: int| d[order[i] as int]);
        let shl = Seq::new((n - 1) as nat, |i: int| dl[rest[i] as int]);
        assert forall|i: int| 0 <= i < n - 1 implies #[trigger] rest[i] < n - 1 by {
            assert(rest.to_multiset().count(rest[i]) > 0) by {
                assert(rest.contains(rest[i]));
            }
            assert(index_range((n - 1) as nat).contains(rest[i]));
        }
        assert(rest.len() == n - 1);
        assert(shl.len() == n - 1);
        assert(0 <= k < n);
        assert(top as int == n - 1);
        assert forall|i: int| 0 <= i < n implies #[trigger] sh[i] == shl.insert(k, d.last())[i] by {
            if i == k {
                assert(order[k] == top);
                assert(sh[k] == d[n - 1]);
            } else if i < k {
                assert(shl[i] == dl[rest[i] as int]);
                assert(rest[i] == order[i]);
                assert(dl[rest[i] as int] == d[order[i] as int]);
            } else {
                assert(shl[i - 1] == dl[rest[i - 1] as int]);
                assert(rest[i - 1] == order[i]);
                assert(dl[rest[i - 1] as int] == d[order[i] as int]);
            }
        }
        assert(sh =~= shl.insert(k, d.last()));
        assert(d =~= dl.push(d.last()));
    }
}

proof fn lemma_arranged_is_rebalanced(old: QuestionRow, new: QuestionRow, target: char, order: Seq<usize>)
    requires
        is_option_letter(target),
        arranged_row(old, new, target, order),
        order.to_multiset() == index_range(
            if is_option_letter(first_letter(old.6@)) { 3nat } else { 4nat },
        ).to_multiset(),
        is_index_order(order, if is_option_letter(first_letter(old.6@)) { 3 } else { 4 }),
    ensures
        rebalanced_row(old, new, target),
{
    broadcast use vstd::seq_lib::group_to_multiset_ensures;

    match json_option_texts(old.5@) {
        None => {},
        Some(texts) => {
            let cur = first_letter(old.6@);
            let all4 = four_texts(texts);
            let d = distractor_texts(all4, cur);
            assert(d.len() == if is_option_letter(cur) { 3int } else { 4int });
            let nt = arranged_texts(d, answer_text(old.5@, cur), order, target);
            let nts = seq![Some(nt[0]), Some(nt[1]), Some(nt[2]), Some(nt[3])];
            assert(four_texts(nts) =~= nt);
            assert(nt[letter_index(target)] == answer_text(old.5@, cur));
            lemma_answer_text_of_option(new.5@, target);
            assert(json_option_texts(new.5@)->0 == nts);
            if is_option_letter(cur) {
                lemma_permuted_multiset(d, order);
                let picked = Seq::new(3, |i: int| d[order[i] as int]);
                assert(picked =~= Seq::new(d.len(), |i: int| d[order[i] as int]));
                let c = letter_index(cur);
                lemma_answer_text_of_option(old.5@, cur);
                lemma_reinsert_multiset(all4, c, picked, letter_index(target));
            }
            assert(exists|x: Seq<Seq<char>>|
                {
                    &&& x.len() == 4
                    &&& new.5@ == options_object_text(x[0], x[1], x[2], x[3])
                    &&& x[letter_index(target)] == answer_text(old.5@, cur)
                    &&& is_option_letter(cur) ==> x.to_multiset() == all4.to_multiset()
                }) by {
                assert(nt.len() == 4);
            }
        },
    }
}

proof fn lemma_reinsert_multiset<T>(all: Seq<T>, c: int, picked: Seq<T>, t: int)
    requires
        all.len() == 4,
        0 <= c < 4,
        0 <= t < 4,
        picked.len() == 3,
        picked.to_multiset() == all.remove(c).to_multiset(),
    ensures
        picked.insert(t, all[c]).to_multiset() == all.to_multiset(),
{
    broadcast use vstd::seq_lib::group_to_multiset_ensures;
    broadcast use vstd::multiset::group_multiset_axioms;

    assert(all.to_multiset().count(all[c]) > 0) by {
        assert(all.contains(all[c]));
    }
    assert(all.to_multiset().remove(all[c]).insert(all[c]) =~= all.to_multiset());
}

/// The correct letters of the rows, in order.
pub open spec fn correct_letters(rows: Seq<QuestionRow>) -> Seq<char> {
    Seq::new(rows.len(), |i: int| first_letter(rows[i].6@))
}

/// Whether the options of every row parse.
pub open spec fn all_options_parse(rows: Seq<QuestionRow>) -> bool {
    forall|i: int| 0 <= i < rows.len() ==> (#[trigger] json_option_texts(rows[i].5@)) is Some
}

/// Reading the options of `new` back finds, under its correct letter, the
/// text that `old` had under its own correct letter.
pub open spec fn reads_back_correct(old: QuestionRow, new: QuestionRow) -> bool {
    match (json_option_texts(old.5@), json_option_texts(new.5@)) {
        (Some(_), Some(_)) => answer_text(new.5@, first_letter(new.6@)) == answer_text(
            old.5@,
            first_letter(old.6@),
        ),
        _ => false,
    }
}

/// Re-assign correct letters across the batch so each of A/B/C/D is correct
/// for `n / 4` or `n / 4 + 1` of the `n` questions, in random order, and put
/// each question's distractors in random slots.
pub fn rebalance_correct_letters(items: &mut Vec<QuestionRow>)
    ensures
        final(items)@.len() == old(items)@.len(),
        exists|targets: Seq<char>|
            #![trigger targets.to_multiset()]
            {
                &&& targets.len() == old(items)@.len()
                &&& targets.to_multiset() == round_robin(old(items)@.len()).to_multiset()
                &&& forall|i: int|
                    0 <= i < targets.len() ==> rebalanced_row(
                        #[trigger] old(items)@[i],
                        final(items)@[i],
                        targets[i],
                    )
            },
        all_options_parse(old(items)@) ==> correct_letters(final(items)@).to_multiset()
            == round_robin(old(items)@.len()).to_multiset(),
        forall|i: int|
            0 <= i < old(items)@.len() && #[trigger] json_option_texts(old(items)@[i].5@) is Some
                ==> reads_back_correct(old(items)@[i], final(items)@[i]),
{
    let n = items.len();
    let ghost old_items = items@;
    if n == 0 {
        proof {
            let t = Seq::<char>::empty();
            assert(round_robin(0) =~= t);
            assert(correct_letters(items@) =~= t);
            assert(t.to_multiset() == round_robin(0).to_multiset());
        }
        return;
    }
    let mut targets: Vec<char> = Vec::new();
    let mut i: usize = 0;
    while i < n
        invariant
            i <= n,
            targets@ == round_robin(i as nat),
        decreases n - i,
    {
        let l = letter_at(i % 4);
        targets.push(l);
        assert(targets@ =~= round_robin((i + 1) as nat));
        i = i + 1;
    }
    let mut rng = thread_rng();
    shuffle(&mut targets, &mut rng);
    proof {
        assert forall|m: int| 0 <= m < targets@.len() implies is_option_letter(#[trigger] targets@[m]) by {
            broadcast use vstd::seq_lib::group_to_multiset_ensures;

            assert(targets@.contains(targets@[m]));
            assert(targets@.to_multiset().count(targets@[m]) > 0);
            assert(round_robin(n as nat).contains(targets@[m]));
        }
    }
    assert(n == old_items.len());
    assert(targets@.len() == n) by {
        broadcast use vstd::seq_lib::group_to_multiset_ensures;

        assert(targets@.len() == targets@.to_multiset().len());
        assert(round_robin(n as nat).len() == round_robin(n as nat).to_multiset().len());
    }
    let mut taken: Vec<QuestionRow> = Vec::new();
    std::mem::swap(&mut taken, items);
    assert(taken@.skip(0) =~= old_items);
    let mut out: Vec<QuestionRow> = Vec::new();
    let mut k: usize = 0;
    while k < n
        invariant
            k <= n,
            n == old_items.len(),
            taken@ == old_items.skip(k as int),
            targets@.len() == n,
            forall|m: int| 0 <= m < n ==> is_option_letter(#[trigger] targets@[m]),
            out@.len() == k,
            forall|m: int|
                0 <= m < k ==> rebalanced_row(#[trigger] old_items[m], out@[m], targets@[m]),
        decreases n - k,
    {
        let row = taken.remove(0);
        assert(row == old_items[k as int]);
        assert(taken@ =~= old_items.skip(k + 1));
        let r = rebalance_row(row, targets[k], &mut rng);
        out.push(r);
        k = k + 1;
    }
    *items = out;
    proof {
        let t = targets@;
        assert(t.len() == old_items.len());
        assert(t.to_multiset() == round_robin(old_items.len()).to_multiset());
        assert(forall|i: int|
            0 <= i < t.len() ==> rebalanced_row(#[trigger] old_items[i], items@[i], t[i]));
        assert forall|i: int|
            0 <= i < old_items.len() && #[trigger] json_option_texts(old_items[i].5@) is Some
                implies reads_back_correct(old_items[i], items@[i]) by {
            assert(rebalanced_row(old_items[i], items@[i], t[i]));
            assert(first_letter(items@[i].6@) == t[i]);
        }
        if all_options_parse(old_items) {
            assert forall|m: int| 0 <= m < n implies correct_letters(items@)[m] == t[m] by {
                assert(json_option_texts(old_items[m].5@) is Some);
                assert(rebalanced_row(old_items[m], items@[m], t[m]));
            }
            assert(correct_letters(items@) =~= t);
        }
    }
}

proof fn lemma_round_robin_push(n: nat)
    ensures
        round_robin(n + 1) == round_robin(n).push(letters()[(n % 4) as int]),
{
    assert(round_robin(n + 1) =~= round_robin(n).push(letters()[(n % 4) as int]));
}

/// Among `n` round-robin letters, letter number `j` (`A` is 0) occurs
/// `(n + 3 - j) / 4` times: every letter `n / 4` or `n / 4 + 1` times.
pub proof fn lemma_round_robin_count(n: nat, j: int)
    requires
        0 <= j < 4,
    ensures
        round_robin(n).to_multiset().count(letters()[j]) == (n + 3 - j) / 4,
        n / 4 <= round_robin(n).to_multiset().count(letters()[j]) <= n / 4 + 1,
    decreases n,
{
    broadcast use vstd::seq_lib::group_to_multiset_ensures;
    broadcast use vstd::multiset::group_multiset_axioms;

    if n == 0 {
        assert(round_robin(0) =~= Seq::<char>::empty());
    } else {
        let m = (n - 1) as nat;
        lemma_round_robin_count(m, j);
        lemma_round_robin_push(m);
        let l = letters()[(m % 4) as int];
        assert(round_robin(n).to_multiset() == round_robin(m).to_multiset().insert(l));
        if m % 4 == j {
            assert(l == letters()[j]);
        } else {
            assert(l != letters()[j]);
        }
    }
}


// ─── Vetting generated questions ───────────────────────────────────────────

/// One question as the model returned it, field by field (`None` where the
/// field is missing or of another JSON type); `options_json` is the JSON text
/// of its `options` member (`null` when missing).
#[derive(Debug, Clone)]
pub struct RawQuestion {
    pub domain: Option<i64>,
    pub difficulty: Option<i64>,
    pub correct: Option<String>,
    pub question: Option<String>,
    pub subtopic: Option<String>,
    pub explanation: Option<String>,
    pub options_json: String,
}

/// A vetted question, ready to be stored.
#[derive(Debug, Clone)]
pub struct NewQuestion {
    pub domain: u8,
    pub subtopic: Option<String>,
    pub difficulty: u8,
    pub question: String,
    pub options_json: String,
    pub correct: String,
    pub explanation: Option<String>,
}

pub open spec fn opt_or_empty(o: Option<String>) -> Seq<char> {
    text_or_empty(opt_text(o))
}

/// The correct letter a raw question names: trimmed and upper-cased.
pub open spec fn raw_correct(r: RawQuestion) -> Seq<char> {
    upper_text(trim(opt_or_empty(r.correct)))
}

pub open spec fn int_or(o: Option<i64>, d: int) -> int {
    match o {
        Some(v) => v as int,
        None => d,
    }
}

/// Whether all four options are strings.
pub open spec fn has_four_options(json: Seq<char>) -> bool {
    match json_option_texts(json) {
        Some(t) => t.len() == 4 && t[0] is Some && t[1] is Some && t[2] is Some && t[3] is Some,
        None => false,
    }
}

/// A raw question is usable when its domain is 1..=8, its difficulty 1..=4,
/// its correct answer one of A..=D, its stem non-empty and all four options
/// present.
pub open spec fn usable(r: RawQuestion) -> bool {
    let c = raw_correct(r);
    &&& 1 <= int_or(r.domain, -1) <= 8
    &&& 1 <= int_or(r.difficulty, -1) <= 4
    &&& c.len() == 1 && is_option_letter(c[0])
    &&& opt_or_empty(r.question).len() > 0
    &&& has_four_options(r.options_json@)
}

/// Indices of the questions kept among the first `k`, and the normalised
/// stems known after them: a usable question is kept unless its normalised
/// stem is already known.
pub open spec fn selection(raws: Seq<RawQuestion>, known: Seq<Seq<char>>, k: int) -> (Seq<int>, Seq<Seq<char>>)
    decreases k,
{
    if k <= 0 {
        (Seq::empty(), known)
    } else {
        let prev = selection(raws, known, k - 1);
        let r = raws[k - 1];
        let n = normalized_text(opt_or_empty(r.question));
        if usable(r) && !prev.1.contains(n) {
            (prev.0.push(k - 1), prev.1.push(n))
        } else {
            prev
        }
    }
}

/// The normalised stem a raw question is deduplicated by.
pub open spec fn stem_key(r: RawQuestion) -> Seq<char> {
    normalized_text(opt_or_empty(r.question))
}

proof fn lemma_selection_known(raws: Seq<RawQuestion>, known: Seq<Seq<char>>, k: int)
    requires
        0 <= k <= raws.len(),
    ensures
        selection(raws, known, k).1 == known + selection(raws, known, k).0.map_values(
            |i: int| stem_key(raws[i]),
        ),
        forall|p: int|
            0 <= p < selection(raws, known, k).0.len() ==> 0 <= #[trigger] selection(
                raws,
                known,
                k,
            ).0[p] < k,
    decreases k,
{
    if k > 0 {
        lemma_selection_known(raws, known, k - 1);
        let prev = selection(raws, known, k - 1);
        let r = raws[k - 1];
        let n = normalized_text(opt_or_empty(r.question));
        if usable(r) && !prev.1.contains(n) {
            assert(prev.0.push(k - 1).map_values(|i: int| stem_key(raws[i])) =~= prev.0.map_values(
                |i: int| stem_key(raws[i]),
            ).push(n));
            assert(known + prev.0.map_values(|i: int| stem_key(raws[i])).push(n) =~= (known
                + prev.0.map_values(|i: int| stem_key(raws[i]))).push(n));
        }
    }
}

/// No duplicates get through: every kept question's normalised stem is
/// new to the known stems, and no two kept questions share one.
pub proof fn lemma_selected_stems_are_new(raws: Seq<RawQuestion>, known: Seq<Seq<char>>, k: int)
    requires
        0 <= k <= raws.len(),
    ensures
        forall|p: int|
            0 <= p < selection(raws, known, k).0.len() ==> !known.contains(
                stem_key(raws[#[trigger] selection(raws, known, k).0[p]]),
            ),
        forall|p: int, q: int|
            0 <= p < q < selection(raws, known, k).0.len() ==> stem_key(
                raws[#[trigger] selection(raws, known, k).0[p]],
            ) != stem_key(raws[#[trigger] selection(raws, known, k).0[q]]),
    decreases k,
{
    if k > 0 {
        lemma_selected_stems_are_new(raws, known, k - 1);
        lemma_selection_known(raws, known, k - 1);
        let prev = selection(raws, known, k - 1);
        let cur = selection(raws, known, k);
        let r = raws[k - 1];
        let n = normalized_text(opt_or_empty(r.question));
        if usable(r) && !prev.1.contains(n) {
            let keys = prev.0.map_values(|i: int| stem_key(raws[i]));
            assert forall|p: int| 0 <= p < prev.0.len() implies stem_key(raws[prev.0[p]]) != n by {
                assert(prev.1[known.len() + p] == keys[p]);
            }
            assert forall|m: int| 0 <= m < known.len() implies known[m] != n by {
                assert(prev.1[m] == known[m]);
            }
            assert(cur.0 == prev.0.push(k - 1));
            assert forall|p: int| 0 <= p < cur.0.len() implies !known.contains(
                stem_key(raws[#[trigger] cur.0[p]]),
            ) by {
                if p == prev.0.len() {
                    assert(cur.0[p] == k - 1);
                    if known.contains(n) {
                        let m = choose|m: int| 0 <= m < known.len() && known[m] == n;
                        assert(known[m] != n);
                    }
                } else {
                    assert(cur.0[p] == prev.0[p]);
                }
            }
            assert forall|p: int, q: int| 0 <= p < q < cur.0.len() implies stem_key(
                raws[#[trigger] cur.0[p]],
            ) != stem_key(raws[#[trigger] cur.0[q]]) by {
                assert(cur.0[p] == prev.0[p]);
                if q == prev.0.len() {
                    assert(cur.0[q] == k - 1);
                } else {
                    assert(cur.0[q] == prev.0[q]);
                }
            }
        }
    }
}

/// `q` is raw question `r` vetted.
pub open spec fn vetted_from(q: NewQuestion, r: RawQuestion) -> bool {
    &&& q.domain as int == int_or(r.domain, -1)
    &&& q.difficulty as int == int_or(r.difficulty, -1)
    &&& q.subtopic == r.subtopic
    &&& q.explanation == r.explanation
    &&& q.question@ == opt_or_empty(r.question)
    &&& q.options_json == r.options_json
    &&& q.correct@ == raw_correct(r)
}

fn opt_string_or_empty(o: &Option<String>) -> (s: String)
    ensures
        s@ == opt_or_empty(*o),
{
    match o {
        Some(s) => s.clone(),
        None => String::new(),
    }
}

/// Whether `known` holds `n`.
fn known_contains(known: &Vec<String>, n: &String) -> (b: bool)
    ensures
        b == known@.map_values(|s: String| s@).contains(n@),
{
    let mut i: usize = 0;
    while i < known.len()
        invariant
            i <= known@.len(),
            forall|m: int| 0 <= m < i ==> known@[m]@ != n@,
        decreases known@.len() - i,
    {
        if known[i] == *n {
            assert(known@.map_values(|s: String| s@)[i as int] == n@);
            return true;
        }
        i = i + 1;
    }
    proof {
        let kv = known@.map_values(|s: String| s@);
        if kv.contains(n@) {
            let m = choose|m: int| 0 <= m < kv.len() && kv[m] == n@;
            assert(known@[m]@ == n@);
        }
    }
    false
}

/// Keep the usable questions whose normalised stem is new (`known` holds the
/// normalised stems already stored), in order, with the correct letter
/// trimmed and upper-cased.
pub fn select_new_questions(raws: Vec<RawQuestion>, known: Vec<String>) -> (out: Vec<NewQuestion>)
    ensures
        ({
            let sel = selection(raws@, known@.map_values(|s: String| s@), raws@.len() as int).0;
            &&& out@.len() == sel.len()
            &&& forall|j: int| 0 <= j < sel.len() ==> vetted_from(#[trigger] out@[j], raws@[sel[j]])
        }),
{
    let ghost raws0 = raws@;
    let ghost known0 = known@.map_values(|s: String| s@);
    let n = raws.len();
    let mut raws = raws;
    let mut known = known;
    let mut out: Vec<NewQuestion> = Vec::new();
    let mut k: usize = 0;
    assert(raws@.skip(0) =~= raws0);
    assert(known@.map_values(|s: String| s@) =~= known0);
    while k < n
        invariant
            k <= n,
            n == raws0.len(),
            raws@ == raws0.skip(k as int),
            selection(raws0, known0, k as int).1 == known@.map_values(|s: String| s@),
            out@.len() == selection(raws0, known0, k as int).0.len(),
            forall|j: int|
                0 <= j < out@.len() ==> vetted_from(
                    #[trigger] out@[j],
                    raws0[selection(raws0, known0, k as int).0[j]],
                ),
        decreases n - k,
    {
        let r = raws.remove(0);
        assert(r == raws0[k as int]);
        assert(raws@ =~= raws0.skip(k + 1));
        let ghost prev = selection(raws0, known0, k as int);
        let domain: i64 = match r.domain {
            Some(d) => d,
            None => -1,
        };
        let difficulty: i64 = match r.difficulty {
            Some(d) => d,
            None => -1,
        };
        let cv = chars_of(opt_string_or_empty(&r.correct).as_str());
        let ct = trim_chars(&cv);
        let cu = uppercase_chars(&ct);
        let stem = opt_string_or_empty(&r.question);
        let stem_len = chars_of(stem.as_str()).len();
        let opts_ok = match option_texts(r.options_json.as_str()) {
            Some(t) => t[0].is_some() && t[1].is_some() && t[2].is_some() && t[3].is_some(),
            None => false,
        };
        let ok = 1 <= domain && domain <= 8 && 1 <= difficulty && difficulty <= 4 && cu.len() == 1
            && (cu[0] == 'A' || cu[0] == 'B' || cu[0] == 'C' || cu[0] == 'D') && stem_len > 0
            && opts_ok;
        assert(ok == usable(r));
        if ok {
            let norm = normalize_q(stem.as_str());
            if !known_contains(&known, &norm) {
                proof {
                    assert(known@.push(norm).map_values(|s: String| s@) =~= known@.map_values(
                        |s: String| s@,
                    ).push(norm@));
                }
                known.push(norm);
                let q = NewQuestion {
                    domain: domain as u8,
                    subtopic: r.subtopic,
                    difficulty: difficulty as u8,
                    question: stem,
                    options_json: r.options_json,
                    correct: string_of(&cu),
                    explanation: r.explanation,
                };
                out.push(q);
            }
        }
        k = k + 1;
    }
    out
}

// ─── Identifiers ────────────────────────────────────────────────────────────

/// A lowercase hexadecimal digit.
pub open spec fn is_lower_hex(c: char) -> bool {
    ('0' <= c && c <= '9') || ('a' <= c && c <= 'f')
}

/// `id` is `prefix` followed by 32 lowercase hexadecimal digits.
pub open spec fn is_fresh_id(id: Seq<char>, prefix: Seq<char>) -> bool {
    &&& id.len() == prefix.len() + 32
    &&& id.take(prefix.len() as int) == prefix
    &&& forall|i: int| prefix.len() <= i < id.len() ==> is_lower_hex(#[trigger] id[i])
}

/// `uuid::Uuid::new_v4().simple()` as text: a random version-4 UUID written
/// as 32 lowercase hexadecimal digits without hyphens. Which digits come out
/// is left open; two calls may differ.
#[verifier::external_body]
fn random_uuid_hex() -> (r: String)
    ensures
        r@.len() == 32,
        forall|i: int| 0 <= i < 32 ==> is_lower_hex(#[trigger] r@[i]),
{
    uuid::Uuid::new_v4().simple().to_string()
}

/// A new identifier: `prefix` followed by the digits of a random UUID.
pub fn fresh_id(prefix: &str) -> (r: String)
    ensures
        is_fresh_id(r@, prefix@),
{
    let hex = random_uuid_hex();
    let mut r = String::from_str(prefix);
    r.append(hex.as_str());
    proof {
        assert(r@.take(prefix@.len() as int) =~= prefix@);
        assert forall|i: int| prefix@.len() <= i < r@.len() implies is_lower_hex(#[trigger] r@[i]) by {
            assert(r@[i] == hex@[i - prefix@.len()]);
        }
    }
    r
}

/// The rows to store for vetted questions: each gets a fresh `q-` id.
pub fn question_rows(qs: Vec<NewQuestion>) -> (rows: Vec<QuestionRow>)
    ensures
        rows@.len() == qs@.len(),
        forall|i: int|
            0 <= i < qs@.len() ==> {
                let q = #[trigger] qs@[i];
                let r = rows@[i];
                &&& is_fresh_id(r.0@, "q-"@)
                &&& r.1 == q.domain
                &&& r.2 == q.subtopic
                &&& r.3 == q.difficulty
                &&& r.4 == q.question
                &&& r.5 == q.options_json
                &&& r.6 == q.correct
                &&& r.7 == q.explanation
            },
{
    let ghost all = qs@;
    let n = qs.len();
    let mut qs = qs;
    let mut rows: Vec<QuestionRow> = Vec::new();
    let mut k: usize = 0;
    assert(qs@.skip(0) =~= all);
    while k < n
        invariant
            k <= n,
            n == all.len(),
            qs@ == all.skip(k as int),
            rows@.len() == k,
            forall|i: int|
                0 <= i < k ==> {
                    let q = #[trigger] all[i];
                    let r = rows@[i];
                    &&& is_fresh_id(r.0@, "q-"@)
                    &&& r.1 == q.domain
                    &&& r.2 == q.subtopic
                    &&& r.3 == q.difficulty
                    &&& r.4 == q.question
                    &&& r.5 == q.options_json
                    &&& r.6 == q.correct
                    &&& r.7 == q.explanation
                },
        decreases n - k,
    {
        let q = qs.remove(0);
        assert(q == all[k as int]);
        assert(qs@ =~= all.skip(k + 1));
        let id = fresh_id("q-");
        rows.push((id, q.domain, q.subtopic, q.difficulty, q.question, q.options_json, q.correct, q.explanation));
        k = k + 1;
    }
    rows
}

// ─── Batch summaries ───────────────────────────────────────────────────────

/// How one question of a batch went.
#[derive(Debug, Clone, Copy, PartialEq, Eq)]
pub struct QuestionOutcome {
    pub domain: u8,
    pub answered: bool,
    pub correct: bool,
}

/// Counts of a batch: answered, answered correctly, per domain (answered,
/// correct) for the domains answered in, and the indices of the answered
/// questions that were missed.
#[derive(Debug, Clone)]
pub struct BatchSummary {
    pub answered: usize,
    pub correct: usize,
    pub per_domain: std::collections::BTreeMap<u8, (u32, u32)>,
    pub missed: Vec<usize>,
}

pub open spec fn answered_count(qs: Seq<QuestionOutcome>) -> nat
    decreases qs.len(),
{
    if qs.len() == 0 {
        0
    } else {
        answered_count(qs.drop_last()) + if qs.last().answered { 1nat } else { 0nat }
    }
}

pub open spec fn correct_count(qs: Seq<QuestionOutcome>) -> nat
    decreases qs.len(),
{
    if qs.len() == 0 {
        0
    } else {
        correct_count(qs.drop_last()) + if qs.last().answered && qs.last().correct {
            1nat
        } else {
            0nat
        }
    }
}

/// Answered questions of domain `d`, and how many of them were correct.
pub open spec fn domain_tally(qs: Seq<QuestionOutcome>, d: u8) -> (nat, nat)
    decreases qs.len(),
{
    if qs.len() == 0 {
        (0, 0)
    } else {
        let prev = domain_tally(qs.drop_last(), d);
        let q = qs.last();
        if q.answered && q.domain == d {
            (prev.0 + 1, prev.1 + if q.correct { 1nat } else { 0nat })
        } else {
            prev
        }
    }
}

/// Indices of the answered questions that were missed, in order.
pub open spec fn missed_indices(qs: Seq<QuestionOutcome>) -> Seq<int>
    decreases qs.len(),
{
    if qs.len() == 0 {
        Seq::empty()
    } else {
        let prev = missed_indices(qs.drop_last());
        let q = qs.last();
        if q.answered && !q.correct {
            prev.push(qs.len() - 1)
        } else {
            prev
        }
    }
}

pub open spec fn per_domain_map(qs: Seq<QuestionOutcome>) -> Map<u8, (u32, u32)> {
    Map::new(
        |d: u8| domain_tally(qs, d).0 > 0,
        |d: u8| (domain_tally(qs, d).0 as u32, domain_tally(qs, d).1 as u32),
    )
}

/// A batch's counts agree: every answered question is either correct or
/// missed, and a domain's correct answers never exceed its answered ones.
pub proof fn lemma_summary_counts_agree(qs: Seq<QuestionOutcome>, d: u8)
    ensures
        answered_count(qs) == correct_count(qs) + missed_indices(qs).len(),
        domain_tally(qs, d).1 <= domain_tally(qs, d).0 <= answered_count(qs),
    decreases qs.len(),
{
    if qs.len() > 0 {
        lemma_summary_counts_agree(qs.drop_last(), d);
    }
}

proof fn lemma_tally_bound(qs: Seq<QuestionOutcome>, d: u8)
    ensures
        domain_tally(qs, d).1 <= domain_tally(qs, d).0 <= qs.len(),
        correct_count(qs) <= answered_count(qs) <= qs.len(),
    decreases qs.len(),
{
    if qs.len() > 0 {
        lemma_tally_bound(qs.drop_last(), d);
    }
}

/// Count a batch: answered and correct questions, per-domain tallies and
/// the missed questions.
pub fn summarize_batch(qs: &Vec<QuestionOutcome>) -> (s: BatchSummary)
    requires
        qs@.len() <= u32::MAX,
    ensures
        s.answered == answered_count(qs@),
        s.correct == correct_count(qs@),
        s.per_domain@ == per_domain_map(qs@),
        s.missed@.map_values(|i: usize| i as int) == missed_indices(qs@),
{
    let n = qs.len();
    let mut answered: usize = 0;
    let mut correct: usize = 0;
    let mut per: std::collections::BTreeMap<u8, (u32, u32)> = std::collections::BTreeMap::new();
    let mut missed: Vec<usize> = Vec::new();
    let mut i: usize = 0;
    proof {
        assert(qs@.take(0) =~= Seq::<QuestionOutcome>::empty());
        assert(per@ =~= per_domain_map(qs@.take(0)));
        assert(missed@.map_values(|i: usize| i as int) =~= missed_indices(qs@.take(0)));
    }
    while i < n
        invariant
            n == qs@.len(),
            n <= u32::MAX,
            i <= n,
            answered == answered_count(qs@.take(i as int)),
            correct == correct_count(qs@.take(i as int)),
            per@ == per_domain_map(qs@.take(i as int)),
            missed@.map_values(|i: usize| i as int) == missed_indices(qs@.take(i as int)),
        decreases n - i,
    {
        let q = qs[i];
        let ghost pre = qs@.take(i as int);
        let ghost post = qs@.take(i + 1);
        proof {
            assert(post.drop_last() =~= pre);
            lemma_tally_bound(pre, q.domain);
        }
        if q.answered {
            answered = answered + 1;
            let prev: (u32, u32) = match per.get(&q.domain) {
                Some(p) => *p,
                None => (0, 0),
            };
            assert(prev.0 == domain_tally(pre, q.domain).0);
            let next = (prev.0 + 1, prev.1 + if q.correct { 1 } else { 0 });
            per.insert(q.domain, next);
            if q.correct {
                correct = correct + 1;
            } else {
                missed.push(i);
            }
        }
        proof {
            assert(per@ =~= per_domain_map(post));
            assert(missed@.map_values(|i: usize| i as int) =~= missed_indices(post));
        }
        i = i + 1;
    }
    proof {
        assert(qs@.take(n as int) =~= qs@);
    }
    BatchSummary { answered, correct, per_domain: per, missed }
}

/// The missed questions grouped by domain (lowest first), in batch order
/// within a domain: the order a study guide lists them in.
pub open spec fn missed_by_domain_upto(qs: Seq<QuestionOutcome>, d: int) -> Seq<int>
    decreases d,
{
    if d <= 0 {
        Seq::empty()
    } else {
        missed_by_domain_upto(qs, d - 1) + missed_indices(qs).filter(
            |i: int| qs[i].domain == d - 1,
        )
    }
}

pub open spec fn missed_by_domain_spec(qs: Seq<QuestionOutcome>) -> Seq<int> {
    missed_by_domain_upto(qs, 256)
}

/// Indices of the missed questions, stably ordered by domain.
pub fn missed_by_domain(qs: &Vec<QuestionOutcome>) -> (r: Vec<usize>)
    ensures
        r@.map_values(|i: usize| i as int) == missed_by_domain_spec(qs@),
{
    let n = qs.len();
    let mut r: Vec<usize> = Vec::new();
    let mut d: u16 = 0;
    assert(r@.map_values(|i: usize| i as int) =~= missed_by_domain_upto(qs@, 0));
    while d < 256
        invariant
            d <= 256,
            n == qs@.len(),
            r@.map_values(|i: usize| i as int) == missed_by_domain_upto(qs@, d as int),
        decreases 256 - d,
    {
        let ghost before = r@.map_values(|i: usize| i as int);
        let ghost pred = |i: int| qs@[i].domain == d;
        let mut i: usize = 0;
        while i < n
            invariant
                n == qs@.len(),
                i <= n,
                d < 256,
                r@.map_values(|i: usize| i as int) == before + missed_indices(
                    qs@.take(i as int),
                ).filter(pred),
                pred == (|i: int| qs@[i].domain == d),
            decreases n - i,
        {
            let q = qs[i];
            proof {
                lemma_missed_take(qs@, i as int);
            }
            if q.answered && !q.correct && q.domain as u16 == d {
                let ghost rm = r@.map_values(|i: usize| i as int);
                r.push(i);
                assert(r@.map_values(|i: usize| i as int) =~= rm.push(i as int));
                proof {
                    let m = missed_indices(qs@.take(i as int));
                    m.lemma_filter_push(i as int, pred);
                    assert(r@.map_values(|i: usize| i as int) =~= before + m.filter(pred).push(
                        i as int,
                    ));
                }
            } else {
                proof {
                    let m = missed_indices(qs@.take(i as int));
                    if q.answered && !q.correct {
                        m.lemma_filter_push(i as int, pred);
                    }
                }
            }
            i = i + 1;
        }
        proof {
            assert(qs@.take(n as int) =~= qs@);
            let f1 = |i: int| qs@[i].domain == d;
            let f2 = |i: int| qs@[i].domain == (d + 1) - 1;
            assert(f1 =~= f2);
        }
        d = d + 1;
    }
    r
}

proof fn lemma_missed_take(qs: Seq<QuestionOutcome>, i: int)
    requires
        0 <= i < qs.len(),
    ensures
        missed_indices(qs.take(i + 1)) == if qs[i].answered && !qs[i].correct {
            missed_indices(qs.take(i)).push(i)
        } else {
            missed_indices(qs.take(i))
        },
{
    assert(qs.take(i + 1).drop_last() =~= qs.take(i));
}


// ─── Moving through a batch ─────────────────────────────────────────────────

/// Why a batch cannot move on.
#[derive(Debug, Clone, Copy, PartialEq, Eq)]
pub enum AdvanceError {
    /// The batch is already finished.
    AlreadyFinished,
}

/// The question shown for a batch at position `idx` of `total`: none once
/// finished or past the end.
pub fn current_question_index(idx: u32, total: usize, finished: bool) -> (r: Option<usize>)
    ensures
        r is Some <==> (idx < total && !finished),
        r matches Some(i) ==> i == idx,
{
    if (idx as usize) < total && !finished {
        Some(idx as usize)
    } else {
        None
    }
}

/// The position after skipping a question; a finished batch cannot move.
pub fn advance_index(idx: u32, finished: bool) -> (r: Result<u32, AdvanceError>)
    requires
        !finished ==> idx < u32::MAX,
    ensures
        finished <==> r is Err,
        r matches Ok(n) ==> n == idx + 1,
{
    if finished {
        Err(AdvanceError::AlreadyFinished)
    } else {
        Ok(idx + 1)
    }
}

// ─── Answering ──────────────────────────────────────────────────────────────

/// An answer submitted for the current question.
#[derive(Debug, Clone)]
pub struct AnswerPayload {
    pub letter: String,
}

/// Why an answer is refused.
#[derive(Debug, Clone, Copy, PartialEq, Eq)]
pub enum AnswerError {
    /// The letter is not one of A, B, C, D.
    BadLetter,
    /// The batch has no question at its position.
    NoCurrentQuestion,
    /// The current question was answered before.
    AlreadyAnswered,
}

impl AnswerError {
    pub open spec fn message_text(self) -> Seq<char> {
        match self {
            AnswerError::BadLetter => "letter must be one of A, B, C, D"@,
            AnswerError::NoCurrentQuestion => "no current question for this batch"@,
            AnswerError::AlreadyAnswered => "question already answered"@,
        }
    }

    /// The text this refusal is reported with.
    pub fn message(&self) -> (s: &'static str)
        ensures
            s@ == self.message_text(),
    {
        match self {
            AnswerError::BadLetter => "letter must be one of A, B, C, D",
            AnswerError::NoCurrentQuestion => "no current question for this batch",
            AnswerError::AlreadyAnswered => "question already answered",
        }
    }
}

impl AnswerPayload {
    /// The option letter the answer names; refused unless the letter,
    /// trimmed and upper-cased, is exactly one of A, B, C, D.
    pub fn choice(&self) -> (r: Result<char, AnswerError>)
        ensures
            match answer_letter(self.letter@) {
                Some(c) => r == Ok::<char, AnswerError>(c),
                None => r == Err::<char, AnswerError>(AnswerError::BadLetter),
            },
    {
        match parse_answer_letter(self.letter.as_str()) {
            Some(c) => Ok(c),
            None => Err(AnswerError::BadLetter),
        }
    }
}

/// The position of the question an answer is for: the batch's current
/// position, when it holds a question.
pub fn answer_position(idx: u32, total: usize) -> (r: Result<usize, AnswerError>)
    ensures
        idx < total ==> r == Ok::<usize, AnswerError>(idx as usize),
        idx >= total ==> r == Err::<usize, AnswerError>(AnswerError::NoCurrentQuestion),
{
    if (idx as usize) < total {
        Ok(idx as usize)
    } else {
        Err(AnswerError::NoCurrentQuestion)
    }
}

/// Grade an answer with letter `letter` on a question whose right letter is
/// `correct`: refused when the question already has an answer, else whether
/// the letters agree.
pub fn grade_answer(letter: char, user_answer: &Option<String>, correct: &str) -> (r: Result<bool, AnswerError>)
    ensures
        user_answer is Some ==> r == Err::<bool, AnswerError>(AnswerError::AlreadyAnswered),
        user_answer is None ==> r == Ok::<bool, AnswerError>(correct@ == seq![letter]),
{
    if user_answer.is_some() {
        return Err(AnswerError::AlreadyAnswered);
    }
    let v = chars_of(correct);
    let same = v.len() == 1 && v[0] == letter;
    proof {
        if same {
            assert(correct@ =~= seq![letter]);
        }
        if correct@ == seq![letter] {
            assert(v@.len() == 1 && v@[0] == letter);
        }
    }
    Ok(same)
}

} // verus!
