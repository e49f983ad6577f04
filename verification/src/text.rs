//! Character-level helpers shared by the text processing of the library.
use vstd::prelude::*;
use vstd::string::{StrSliceExecFns, StringExecFns, StringSliceAdditionalSpecFns};

verus! {

broadcast use vstd::string::group_string_axioms;

// ─── Unicode character classes (std) ──────────────────────────────────────

/// Unicode `White_Space` property, as `char::is_whitespace` reports it.
pub uninterp spec fn unicode_whitespace(c: char) -> bool;

/// Unicode alphabetic or numeric, as `char::is_alphanumeric` reports it.
pub uninterp spec fn unicode_alphanumeric(c: char) -> bool;

/// The characters `char::to_lowercase` yields for `c`.
pub uninterp spec fn unicode_lowercase(c: char) -> Seq<char>;

/// The characters `char::to_uppercase` yields for `c`.
pub uninterp spec fn unicode_uppercase(c: char) -> Seq<char>;

/// Whether `c` is whitespace (`char::is_whitespace`): on ASCII, tab, line
/// feed, vertical tab, form feed, carriage return and space.
pub open spec fn whitespace_char(c: char) -> bool {
    if (c as u32) < 128 {
        c == ' ' || ('\t' <= c && c <= '\r')
    } else {
        unicode_whitespace(c)
    }
}

/// Whether `c` is alphabetic or numeric (`char::is_alphanumeric`): on ASCII,
/// exactly the letters and digits.
pub open spec fn alphanumeric_char(c: char) -> bool {
    if (c as u32) < 128 {
        ('a' <= c && c <= 'z') || ('A' <= c && c <= 'Z') || ('0' <= c && c <= '9')
    } else {
        unicode_alphanumeric(c)
    }
}

/// The lower case of `c` (`char::to_lowercase`): on ASCII, upper-case
/// letters move to lower case and every other character stays.
pub open spec fn lowercase_chars(c: char) -> Seq<char> {
    if 'A' <= c && c <= 'Z' {
        seq![((c as u32) + 32) as char]
    } else if (c as u32) < 128 {
        seq![c]
    } else {
        unicode_lowercase(c)
    }
}

/// The upper case of `c` (`char::to_uppercase`): on ASCII, lower-case
/// letters move to upper case and every other character stays.
pub open spec fn uppercase_chars_of(c: char) -> Seq<char> {
    if 'a' <= c && c <= 'z' {
        seq![((c as u32) - 32) as char]
    } else if (c as u32) < 128 {
        seq![c]
    } else {
        unicode_uppercase(c)
    }
}

/// `char::is_whitespace`: whether `c` has the Unicode `White_Space`
/// property. Among ASCII characters exactly tab, line feed, vertical tab,
/// form feed, carriage return and space have it.
#[verifier::external_body]
pub(crate) fn is_whitespace(c: char) -> (b: bool)
    ensures
        b == whitespace_char(c),
        (c as u32) >= 128 ==> b == unicode_whitespace(c),
{
    c.is_whitespace()
}

/// `char::is_alphanumeric`: whether `c` is alphabetic or numeric in
/// Unicode. Among ASCII characters exactly the letters and digits are;
/// punctuation such as `,`, `?`, `-`, whitespace and controls are not.
#[verifier::external_body]
pub(crate) fn is_alphanumeric(c: char) -> (b: bool)
    ensures
        b == alphanumeric_char(c),
        (c as u32) >= 128 ==> b == unicode_alphanumeric(c),
{
    c.is_alphanumeric()
}

/// `char::to_lowercase`, collected: one or more characters; ASCII
/// upper-case letters map to their lower-case letter, every other ASCII
/// character to itself.
#[verifier::external_body]
pub(crate) fn to_lowercase(c: char) -> (v: Vec<char>)
    ensures
        v@ == lowercase_chars(c),
        (c as u32) >= 128 ==> v@ == unicode_lowercase(c),
        v@.len() >= 1,
{
    c.to_lowercase().collect()
}

/// `char::to_uppercase`, collected: one or more characters; ASCII
/// lower-case letters map to their upper-case letter, every other ASCII
/// character to itself.
#[verifier::external_body]
pub(crate) fn to_uppercase(c: char) -> (v: Vec<char>)
    ensures
        v@ == uppercase_chars_of(c),
        (c as u32) >= 128 ==> v@ == unicode_uppercase(c),
        v@.len() >= 1,
{
    c.to_uppercase().collect()
}

/// `String::push`: appends one character.
#[verifier::external_body]
pub(crate) fn push_char(s: &mut String, c: char)
    ensures
        final(s)@ == old(s)@.push(c),
{
    s.push(c);
}

// ─── Conversions ────────────────────────────────────────────────────────────

/// The characters of `s`, in order.
pub fn chars_of(s: &str) -> (v: Vec<char>)
    ensures
        v@ == s@,
{
    let mut v: Vec<char> = Vec::new();
    for c in it: s.chars()
        invariant
            v@ == it.seq().take(it.index() as int),
    {
        v.push(c);
    }
    v
}

/// The string made of `v[from..to]`.
pub fn string_of_range(v: &Vec<char>, from: usize, to: usize) -> (s: String)
    requires
        from <= to <= v@.len(),
    ensures
        s@ == v@.subrange(from as int, to as int),
{
    let mut s = String::new();
    let mut i = from;
    while i < to
        invariant
            from <= i <= to <= v@.len(),
            s@ == v@.subrange(from as int, i as int),
        decreases to - i,
    {
        push_char(&mut s, v[i]);
        assert(v@.subrange(from as int, i + 1) =~= v@.subrange(from as int, i as int).push(v@[i as int]));
        i = i + 1;
    }
    s
}

/// The string made of the characters of `v`.
pub fn string_of(v: &Vec<char>) -> (s: String)
    ensures
        s@ == v@,
{
    let s = string_of_range(v, 0, v.len());
    assert(v@.subrange(0, v@.len() as int) =~= v@);
    s
}

/// Appends `v[from..to]` to `out`.
pub fn push_range(out: &mut Vec<char>, v: &Vec<char>, from: usize, to: usize)
    requires
        from <= to <= v@.len(),
    ensures
        final(out)@ == old(out)@ + v@.subrange(from as int, to as int),
{
    let ghost start = out@;
    let mut i = from;
    while i < to
        invariant
            from <= i <= to <= v@.len(),
            out@ == start + v@.subrange(from as int, i as int),
        decreases to - i,
    {
        out.push(v[i]);
        assert(v@.subrange(from as int, i + 1) =~= v@.subrange(from as int, i as int).push(v@[i as int]));
        i = i + 1;
    }
}

// ─── Trimming ───────────────────────────────────────────────────────────────

/// `s` without its leading whitespace.
pub open spec fn trim_start(s: Seq<char>) -> Seq<char>
    decreases s.len(),
{
    if s.len() > 0 && whitespace_char(s[0]) {
        trim_start(s.drop_first())
    } else {
        s
    }
}

/// `s` without its trailing whitespace.
pub open spec fn trim_end(s: Seq<char>) -> Seq<char>
    decreases s.len(),
{
    if s.len() > 0 && whitespace_char(s.last()) {
        trim_end(s.drop_last())
    } else {
        s
    }
}

/// `s` without leading and trailing whitespace (`str::trim`).
pub open spec fn trim(s: Seq<char>) -> Seq<char> {
    trim_end(trim_start(s))
}

/// Index of the first character of `v[from..to]` that is not whitespace
/// (`to` if none), with `trim_start` of the range starting there.
pub fn skip_whitespace(v: &Vec<char>, from: usize, to: usize) -> (i: usize)
    requires
        from <= to <= v@.len(),
    ensures
        from <= i <= to,
        trim_start(v@.subrange(from as int, to as int)) == v@.subrange(i as int, to as int),
{
    let mut i = from;
    while i < to && is_whitespace(v[i])
        invariant
            from <= i <= to <= v@.len(),
            trim_start(v@.subrange(from as int, to as int)) == trim_start(
                v@.subrange(i as int, to as int),
            ),
        decreases to - i,
    {
        assert(v@.subrange(i as int, to as int).drop_first() =~= v@.subrange(i + 1, to as int));
        i = i + 1;
    }
    i
}

/// End of `v[from..to]` once its trailing whitespace is dropped.
pub fn skip_whitespace_back(v: &Vec<char>, from: usize, to: usize) -> (j: usize)
    requires
        from <= to <= v@.len(),
    ensures
        from <= j <= to,
        trim_end(v@.subrange(from as int, to as int)) == v@.subrange(from as int, j as int),
{
    let mut j = to;
    while j > from && is_whitespace(v[j - 1])
        invariant
            from <= j <= to <= v@.len(),
            trim_end(v@.subrange(from as int, to as int)) == trim_end(
                v@.subrange(from as int, j as int),
            ),
        decreases j - from,
    {
        assert(v@.subrange(from as int, j as int).drop_last() =~= v@.subrange(
            from as int,
            j - 1,
        ));
        j = j - 1;
    }
    j
}

proof fn lemma_trim_end_of_trimmed_start(s: Seq<char>, i: int, j: int)
    requires
        0 <= i <= j <= s.len(),
        trim_start(s) == s.subrange(i, s.len() as int),
        trim_end(s.subrange(i, s.len() as int)) == s.subrange(i, j),
    ensures
        trim(s) == s.subrange(i, j),
{
}

/// `v[from..to]` trimmed, as the bounds of the trimmed part.
pub fn trim_bounds(v: &Vec<char>, from: usize, to: usize) -> (r: (usize, usize))
    requires
        from <= to <= v@.len(),
    ensures
        from <= r.0 <= r.1 <= to,
        trim(v@.subrange(from as int, to as int)) == v@.subrange(r.0 as int, r.1 as int),
{
    let i = skip_whitespace(v, from, to);
    let j = skip_whitespace_back(v, i, to);
    proof {
        let s = v@.subrange(from as int, to as int);
        assert(s.subrange(i - from, s.len() as int) =~= v@.subrange(i as int, to as int));
        assert(s.subrange(i - from, j - from) =~= v@.subrange(i as int, j as int));
        lemma_trim_end_of_trimmed_start(s, i - from, j - from);
    }
    (i, j)
}

/// The characters of `v` without leading and trailing whitespace.
pub fn trim_chars(v: &Vec<char>) -> (t: Vec<char>)
    ensures
        t@ == trim(v@),
{
    let (i, j) = trim_bounds(v, 0, v.len());
    assert(v@.subrange(0, v@.len() as int) =~= v@);
    let mut t = Vec::new();
    push_range(&mut t, v, i, j);
    assert(t@ =~= v@.subrange(i as int, j as int));
    t
}

// ─── Searching ──────────────────────────────────────────────────────────────

/// Whether `p` occurs in `s` starting at `i`.
pub open spec fn occurs_at(s: Seq<char>, p: Seq<char>, i: int) -> bool {
    0 <= i && i + p.len() <= s.len() && s.subrange(i, i + p.len()) == p
}

/// Whether `s` starts with `p`.
pub open spec fn starts_with(s: Seq<char>, p: Seq<char>) -> bool {
    occurs_at(s, p, 0)
}

/// Whether `p` occurs anywhere in `s`.
pub open spec fn contains_text(s: Seq<char>, p: Seq<char>) -> bool {
    exists|i: int| occurs_at(s, p, i)
}

/// Whether `v[i..]` starts with `p`.
pub fn occurs_at_exec(v: &Vec<char>, p: &Vec<char>, i: usize) -> (b: bool)
    ensures
        b == occurs_at(v@, p@, i as int),
{
    if i > v.len() || p.len() > v.len() - i {
        return false;
    }
    let mut k: usize = 0;
    while k < p.len()
        invariant
            i + p@.len() <= v@.len(),
            v@.len() <= usize::MAX,
            k <= p@.len(),
            forall|m: int| 0 <= m < k ==> v@[i + m] == p@[m],
        decreases p@.len() - k,
    {
        if v[i + k] != p[k] {
            assert(v@.subrange(i as int, i + p@.len())[k as int] != p@[k as int]);
            return false;
        }
        k = k + 1;
    }
    assert(v@.subrange(i as int, i + p@.len()) =~= p@);
    true
}

/// Whether `p` occurs in `v`.
pub fn contains_exec(v: &Vec<char>, p: &Vec<char>) -> (b: bool)
    ensures
        b == contains_text(v@, p@),
{
    if p.len() == 0 {
        assert(v@.subrange(0, 0) =~= p@);
        assert(occurs_at(v@, p@, 0));
        return true;
    }
    let mut i: usize = 0;
    while i < v.len()
        invariant
            i <= v@.len(),
            p@.len() > 0,
            forall|m: int| 0 <= m < i ==> !occurs_at(v@, p@, m),
        decreases v@.len() - i,
    {
        if occurs_at_exec(v, p, i) {
            return true;
        }
        i = i + 1;
    }
    assert forall|m: int| !occurs_at(v@, p@, m) by {
        if 0 <= m && m < i {
        }
    }
    false
}


/// `s` after removing every leading repetition of `p` (`trim_start_matches`).
pub open spec fn strip_prefixes(s: Seq<char>, p: Seq<char>) -> Seq<char>
    decreases s.len(),
{
    if p.len() > 0 && starts_with(s, p) {
        strip_prefixes(s.skip(p.len() as int), p)
    } else {
        s
    }
}

/// The last start index `<= k` at which `p` occurs in `s`.
pub open spec fn last_occurrence_upto(s: Seq<char>, p: Seq<char>, k: int) -> Option<int>
    decreases k + 1,
{
    if k < 0 {
        None
    } else if occurs_at(s, p, k) {
        Some(k)
    } else {
        last_occurrence_upto(s, p, k - 1)
    }
}

/// Start of the last occurrence of `p` in `s` (`str::rfind`).
pub open spec fn last_occurrence(s: Seq<char>, p: Seq<char>) -> Option<int> {
    last_occurrence_upto(s, p, s.len() as int)
}

/// The first index `>= k` holding `c`.
pub open spec fn first_char_from(s: Seq<char>, c: char, k: int) -> Option<int>
    decreases s.len() - k,
{
    if k < 0 || k >= s.len() {
        None
    } else if s[k] == c {
        Some(k)
    } else {
        first_char_from(s, c, k + 1)
    }
}

/// Index of the first `c` in `s` (`str::find`).
pub open spec fn first_char(s: Seq<char>, c: char) -> Option<int> {
    first_char_from(s, c, 0)
}

/// The last index `<= k` holding `c`.
pub open spec fn last_char_upto(s: Seq<char>, c: char, k: int) -> Option<int>
    decreases k + 1,
{
    if k < 0 || k >= s.len() {
        None
    } else if s[k] == c {
        Some(k)
    } else {
        last_char_upto(s, c, k - 1)
    }
}

/// Index of the last `c` in `s` (`str::rfind`).
pub open spec fn last_char(s: Seq<char>, c: char) -> Option<int> {
    last_char_upto(s, c, s.len() - 1)
}

proof fn lemma_skip_starts_with(s: Seq<char>, p: Seq<char>, i: int)
    requires
        0 <= i <= s.len(),
    ensures
        starts_with(s.skip(i), p) == occurs_at(s, p, i),
{
    if i + p.len() <= s.len() {
        assert(s.skip(i).subrange(0, p.len() as int) =~= s.subrange(i, i + p.len()));
    }
}

/// `v` after removing every leading repetition of `p`.
pub fn strip_prefixes_exec(v: &Vec<char>, p: &Vec<char>) -> (r: Vec<char>)
    ensures
        r@ == strip_prefixes(v@, p@),
{
    let mut i: usize = 0;
    let n = v.len();
    assert(v@.skip(0) =~= v@);
    if p.len() > 0 {
        while occurs_at_exec(v, p, i)
            invariant
                i <= v@.len(),
                n == v@.len(),
                p@.len() > 0,
                strip_prefixes(v@, p@) == strip_prefixes(v@.skip(i as int), p@),
            decreases v@.len() - i,
        {
            proof {
                lemma_skip_starts_with(v@, p@, i as int);
                assert(v@.skip(i as int).skip(p@.len() as int) =~= v@.skip(i + p@.len()));
            }
            i = i + p.len();
        }
        proof {
            lemma_skip_starts_with(v@, p@, i as int);
        }
    }
    let mut r = Vec::new();
    push_range(&mut r, v, i, v.len());
    assert(r@ =~= v@.skip(i as int));
    assert(i == 0 ==> v@.skip(0) =~= v@);
    r
}

/// Start of the last occurrence of `p` in `v`.
pub fn last_occurrence_exec(v: &Vec<char>, p: &Vec<char>) -> (r: Option<usize>)
    ensures
        r matches Some(i) ==> last_occurrence(v@, p@) == Some(i as int),
        r is None ==> last_occurrence(v@, p@) is None,
{
    let mut k: usize = v.len();
    loop
        invariant
            k <= v@.len(),
            last_occurrence(v@, p@) == last_occurrence_upto(v@, p@, k as int),
        decreases k,
    {
        if occurs_at_exec(v, p, k) {
            return Some(k);
        }
        if k == 0 {
            assert(last_occurrence_upto(v@, p@, -1) is None);
            return None;
        }
        k = k - 1;
    }
}

/// Index of the first `c` in `v`.
pub fn first_char_exec(v: &Vec<char>, c: char) -> (r: Option<usize>)
    ensures
        r matches Some(i) ==> first_char(v@, c) == Some(i as int),
        r is None ==> first_char(v@, c) is None,
{
    let mut k: usize = 0;
    while k < v.len()
        invariant
            k <= v@.len(),
            first_char(v@, c) == first_char_from(v@, c, k as int),
        decreases v@.len() - k,
    {
        if v[k] == c {
            return Some(k);
        }
        k = k + 1;
    }
    None
}

/// Index of the last `c` in `v`.
pub fn last_char_exec(v: &Vec<char>, c: char) -> (r: Option<usize>)
    ensures
        r matches Some(i) ==> last_char(v@, c) == Some(i as int) && i < v@.len(),
        r is None ==> last_char(v@, c) is None,
{
    let mut k: usize = v.len();
    while k > 0
        invariant
            k <= v@.len(),
            last_char(v@, c) == last_char_upto(v@, c, k - 1),
        decreases k,
    {
        if v[k - 1] == c {
            return Some(k - 1);
        }
        k = k - 1;
    }
    None
}


// ─── Numbers and byte-limited text ─────────────────────────────────────────

pub open spec fn digit_char(d: int) -> char {
    if d == 0 {
        '0'
    } else if d == 1 {
        '1'
    } else if d == 2 {
        '2'
    } else if d == 3 {
        '3'
    } else if d == 4 {
        '4'
    } else if d == 5 {
        '5'
    } else if d == 6 {
        '6'
    } else if d == 7 {
        '7'
    } else if d == 8 {
        '8'
    } else {
        '9'
    }
}

/// The decimal digits of `n`, most significant first.
pub open spec fn decimal_text(n: nat) -> Seq<char>
    decreases n,
{
    if n < 10 {
        seq![digit_char(n as int)]
    } else {
        decimal_text(n / 10).push(digit_char((n % 10) as int))
    }
}

fn digit_exec(d: u64) -> (c: char)
    requires
        d < 10,
    ensures
        c == digit_char(d as int),
{
    if d == 0 {
        '0'
    } else if d == 1 {
        '1'
    } else if d == 2 {
        '2'
    } else if d == 3 {
        '3'
    } else if d == 4 {
        '4'
    } else if d == 5 {
        '5'
    } else if d == 6 {
        '6'
    } else if d == 7 {
        '7'
    } else if d == 8 {
        '8'
    } else {
        '9'
    }
}

/// The decimal digits of `n`.
pub fn decimal_chars(n: u64) -> (v: Vec<char>)
    ensures
        v@ == decimal_text(n as nat),
    decreases n,
{
    if n < 10 {
        let mut v = Vec::new();
        v.push(digit_exec(n));
        v
    } else {
        let mut v = decimal_chars(n / 10);
        v.push(digit_exec(n % 10));
        v
    }
}

/// `n` written in decimal.
pub fn decimal(n: u64) -> (s: String)
    ensures
        s@ == decimal_text(n as nat),
{
    string_of(&decimal_chars(n))
}

/// `s` cut to its first `n` bytes with `…` appended when it is longer;
/// as is otherwise.
pub open spec fn truncated_text(s: Seq<char>, n: nat) -> Seq<char> {
    let bytes = vstd::utf8::encode_utf8(s);
    if bytes.len() <= n {
        s
    } else {
        vstd::utf8::decode_utf8(bytes.take(n as int)) + "…"@
    }
}

/// Whether `truncate(s, n)` is defined: `s` fits in `n` bytes or byte `n`
/// starts a character.
pub open spec fn truncate_defined(s: &str, n: usize) -> bool {
    s.spec_bytes().len() <= n || vstd::utf8::is_char_boundary(s.spec_bytes(), n as int)
}

/// Shorten `s` to `n` bytes for an error message, marking the cut with `…`.
pub fn truncate(s: &str, n: usize) -> (r: String)
    requires
        truncate_defined(s, n),
    ensures
        r@ == truncated_text(s@, n as nat),
{
    let byte_len = s.as_bytes().len();
    if byte_len <= n {
        String::from_str(s)
    } else {
        let (head, _tail) = s.split_at(n);
        proof {
            vstd::utf8::encode_utf8_decode_utf8(head@);
        }
        let mut r = String::from_str(head);
        r.append("…");
        r
    }
}

} // verus!
