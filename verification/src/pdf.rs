//! Study-guide PDF rendering: finding a Python interpreter and the render
//! script, and judging what the script produced.
use crate::text::{chars_of, decimal, is_whitespace, string_of_range, trim, trim_bounds, whitespace_char};
use vstd::prelude::*;
use vstd::string::StringExecFns;

verus! {

broadcast use vstd::string::group_string_axioms;

/// Errors of PDF rendering, with hints the user can act on.
#[derive(Debug, Clone)]
pub enum PdfError {
    /// `python` / `python3` not found on PATH.
    PythonNotFound,
    /// Couldn't locate `scripts/study_guide.py` near the executable or CWD.
    ScriptNotFound(String),
    /// I/O error spawning or talking to the subprocess.
    Spawn(String),
    /// The script exited non-zero. `stderr` is included for diagnostics.
    NonZero { code: Option<i32>, stderr: String },
}

/// `n` in decimal, with a minus sign when negative.
pub open spec fn signed_decimal(n: int) -> Seq<char> {
    if n < 0 {
        "-"@ + crate::text::decimal_text((-n) as nat)
    } else {
        crate::text::decimal_text(n as nat)
    }
}

fn signed_decimal_exec(n: i32) -> (s: String)
    ensures
        s@ == signed_decimal(n as int),
{
    if n < 0 {
        let m: u64 = (0 - (n as i64)) as u64;
        let mut s = String::from_str("-");
        let d = decimal(m);
        s.append(d.as_str());
        s
    } else {
        decimal(n as u64)
    }
}

/// The message shown for each error.
pub open spec fn pdf_error_text(e: PdfError) -> Seq<char> {
    match e {
        PdfError::PythonNotFound => "Python not found on PATH. Install Python 3.10+ and reportlab (pip install -r requirements.txt) to use the study-guide PDF feature."@,
        PdfError::ScriptNotFound(p) => "study_guide.py not found (looked near "@ + p@
            + "). Make sure scripts/study_guide.py ships alongside the binary or is in the project root."@,
        PdfError::Spawn(e) => "subprocess error: "@ + e@,
        PdfError::NonZero { code, stderr } => "study_guide.py exited "@ + match code {
            Some(c) => signed_decimal(c as int),
            None => "?"@,
        } + ": "@ + trim(stderr@),
    }
}

impl PdfError {
    /// The message shown to the user.
    pub fn message(&self) -> (s: String)
        ensures
            s@ == pdf_error_text(*self),
    {
        match self {
            PdfError::PythonNotFound => String::from_str(
                "Python not found on PATH. Install Python 3.10+ and reportlab (pip install -r requirements.txt) to use the study-guide PDF feature.",
            ),
            PdfError::ScriptNotFound(p) => {
                let mut s = String::from_str("study_guide.py not found (looked near ");
                s.append(p.as_str());
                s.append(
                    "). Make sure scripts/study_guide.py ships alongside the binary or is in the project root.",
                );
                s
            },
            PdfError::Spawn(e) => {
                let mut s = String::from_str("subprocess error: ");
                s.append(e.as_str());
                s
            },
            PdfError::NonZero { code, stderr } => {
                let mut s = String::from_str("study_guide.py exited ");
                match code {
                    Some(c) => {
                        let d = signed_decimal_exec(*c);
                        s.append(d.as_str());
                    },
                    None => {
                        s.append("?");
                    },
                }
                s.append(": ");
                let v = chars_of(stderr.as_str());
                let (a, b) = trim_bounds(&v, 0, v.len());
                assert(v@.subrange(0, v@.len() as int) =~= v@);
                let t = string_of_range(&v, a, b);
                s.append(t.as_str());
                s
            },
        }
    }
}

// ─── Finding Python ─────────────────────────────────────────────────────────

/// The whitespace-separated words of `s` (`str::split_whitespace`), and the
/// word still being read at its end.
pub open spec fn words_state(s: Seq<char>) -> (Seq<Seq<char>>, Seq<char>)
    decreases s.len(),
{
    if s.len() == 0 {
        (Seq::empty(), Seq::empty())
    } else {
        let prev = words_state(s.drop_last());
        let c = s.last();
        if whitespace_char(c) {
            if prev.1.len() > 0 {
                (prev.0.push(prev.1), Seq::empty())
            } else {
                prev
            }
        } else {
            (prev.0, prev.1.push(c))
        }
    }
}

pub open spec fn words(s: Seq<char>) -> Seq<Seq<char>> {
    let st = words_state(s);
    if st.1.len() > 0 {
        st.0.push(st.1)
    } else {
        st.0
    }
}

/// The words of `s`.
pub fn split_words(s: &str) -> (r: Vec<String>)
    ensures
        r@.map_values(|w: String| w@) == words(s@),
{
    let v = chars_of(s);
    let n = v.len();
    let mut out: Vec<String> = Vec::new();
    let mut start: usize = 0;
    let mut i: usize = 0;
    while i < n
        invariant
            n == v@.len(),
            start <= i <= n,
            words_state(v@.take(i as int)) == (
                out@.map_values(|w: String| w@),
                v@.subrange(start as int, i as int),
            ),
        decreases n - i,
    {
        proof {
            assert(v@.take(i + 1).drop_last() =~= v@.take(i as int));
        }
        if is_whitespace(v[i]) {
            if start < i {
                let w = string_of_range(&v, start, i);
                let ghost om = out@.map_values(|w: String| w@);
                out.push(w);
                assert(out@.map_values(|w: String| w@) =~= om.push(v@.subrange(start as int, i as int)));
            }
            assert(v@.subrange(i + 1, i + 1) =~= Seq::<char>::empty());
            start = i + 1;
        } else {
            assert(v@.subrange(start as int, i + 1) =~= v@.subrange(start as int, i as int).push(v@[i as int]));
        }
        i = i + 1;
    }
    assert(v@.take(n as int) =~= v@);
    if start < n {
        let w = string_of_range(&v, start, n);
        let ghost om = out@.map_values(|w: String| w@);
        out.push(w);
        assert(out@.map_values(|w: String| w@) =~= om.push(v@.subrange(start as int, n as int)));
    }
    out
}

/// Interpreter launchers tried in order: `python3`, `python`, `py -3`.
pub open spec fn python_candidate(i: int) -> Seq<Seq<char>> {
    if i == 0 {
        seq!["python3"@]
    } else if i == 1 {
        seq!["python"@]
    } else {
        seq!["py"@, "-3"@]
    }
}

/// Number of launchers tried.
pub const PYTHON_CANDIDATES: usize = 3;

fn python_candidate_exec(i: usize) -> (c: Vec<String>)
    requires
        i < 3,
    ensures
        c@.map_values(|w: String| w@) == python_candidate(i as int),
{
    let mut c: Vec<String> = Vec::new();
    if i == 0 {
        c.push(String::from_str("python3"));
    } else if i == 1 {
        c.push(String::from_str("python"));
    } else {
        c.push(String::from_str("py"));
        c.push(String::from_str("-3"));
    }
    assert(c@.map_values(|w: String| w@) =~= python_candidate(i as int));
    c
}

/// The next step of the interpreter search.
#[derive(Debug, Clone)]
pub enum PythonStep {
    /// Run this command line.
    Use(Vec<String>),
    /// Probe launcher `candidate`: with `-c "import reportlab"` when
    /// `needs_reportlab`, with `--version` otherwise.
    Probe { candidate: usize, needs_reportlab: bool },
    /// No interpreter was found.
    NotFound,
}

/// The first step: the words of `CISSP_PYTHON_BIN` when it holds any, else
/// probing the first launcher for `reportlab`.
pub fn start_python_search(override_var: Option<String>) -> (step: PythonStep)
    ensures
        match override_var {
            Some(raw) => if words(raw@).len() > 0 {
                step matches PythonStep::Use(c) && c@.map_values(|w: String| w@) == words(raw@)
            } else {
                step matches PythonStep::Probe { candidate, needs_reportlab } && candidate == 0
                    && needs_reportlab
            },
            None => step matches PythonStep::Probe { candidate, needs_reportlab } && candidate == 0
                && needs_reportlab,
        },
{
    if let Some(raw) = override_var {
        let parts = split_words(raw.as_str());
        if parts.len() > 0 {
            return PythonStep::Use(parts);
        }
    }
    PythonStep::Probe { candidate: 0, needs_reportlab: true }
}

/// The step after probing launcher `candidate`: use it if the probe
/// succeeded; else probe the next launcher, starting over with plain
/// `--version` probes once no launcher has `reportlab`.
pub fn after_probe(candidate: usize, needs_reportlab: bool, ok: bool) -> (step: PythonStep)
    requires
        candidate < 3,
    ensures
        ok ==> (step matches PythonStep::Use(c) && c@.map_values(|w: String| w@) == python_candidate(
            candidate as int,
        )),
        !ok && candidate + 1 < 3 ==> (step matches PythonStep::Probe { candidate: n, needs_reportlab: r }
            && n == candidate + 1 && r == needs_reportlab),
        !ok && candidate + 1 == 3 && needs_reportlab ==> (step matches PythonStep::Probe {
            candidate: n,
            needs_reportlab: r,
        } && n == 0 && !r),
        !ok && candidate + 1 == 3 && !needs_reportlab ==> step is NotFound,
{
    if ok {
        PythonStep::Use(python_candidate_exec(candidate))
    } else if candidate + 1 < PYTHON_CANDIDATES {
        PythonStep::Probe { candidate: candidate + 1, needs_reportlab }
    } else if needs_reportlab {
        PythonStep::Probe { candidate: 0, needs_reportlab: false }
    } else {
        PythonStep::NotFound
    }
}

// ─── Finding the script, judging the output ────────────────────────────────

/// The first candidate path that exists; otherwise the error names the
/// first path tried (`.` when none was).
pub fn pick_script(candidates: Vec<(String, bool)>) -> (r: Result<String, PdfError>)
    ensures
        match r {
            Ok(p) => exists|i: int|
                0 <= i < candidates@.len() && candidates@[i].1 && candidates@[i].0@ == p@ && forall|
                    j: int,
                | 0 <= j < i ==> !(#[trigger] candidates@[j]).1,
            Err(e) => (forall|j: int| 0 <= j < candidates@.len() ==> !(#[trigger] candidates@[j]).1)
                && (e matches PdfError::ScriptNotFound(p) && p@ == if candidates@.len() > 0 {
                candidates@[0].0@
            } else {
                "."@
            }),
        },
{
    let n = candidates.len();
    let mut i: usize = 0;
    while i < n
        invariant
            i <= n,
            n == candidates@.len(),
            forall|j: int| 0 <= j < i ==> !(#[trigger] candidates@[j]).1,
        decreases n - i,
    {
        if candidates[i].1 {
            let p = candidates[i].0.clone();
            assert(candidates@[i as int].1 && candidates@[i as int].0@ == p@);
            return Ok(p);
        }
        i = i + 1;
    }
    if n > 0 {
        Err(PdfError::ScriptNotFound(candidates[0].0.clone()))
    } else {
        Err(PdfError::ScriptNotFound(String::from_str(".")))
    }
}

pub open spec fn pdf_magic() -> Seq<u8> {
    seq![0x25u8, 0x50u8, 0x44u8, 0x46u8, 0x2Du8]
}

/// Whether `bytes` starts with `%PDF-`.
pub open spec fn is_pdf(bytes: Seq<u8>) -> bool {
    bytes.len() >= 5 && bytes.take(5) == pdf_magic()
}

/// The render result: the output when the script succeeded and wrote a
/// PDF; otherwise an error carrying the exit code and the script's stderr.
pub fn check_render_output(success: bool, code: Option<i32>, stdout: Vec<u8>, stderr: String) -> (r: Result<Vec<u8>, PdfError>)
    ensures
        success && is_pdf(stdout@) <==> r is Ok,
        r matches Ok(out) ==> out@ == stdout@,
        !success ==> (r matches Err(PdfError::NonZero { code: c, stderr: e }) && c == code && e@
            == stderr@),
        success && !is_pdf(stdout@) ==> (r matches Err(PdfError::NonZero { code: c, stderr: e })
            && c == code && e@ == "script returned "@ + crate::text::decimal_text(stdout@.len())
            + " bytes but no PDF magic. stderr: "@ + stderr@),
{
    if !success {
        return Err(PdfError::NonZero { code, stderr });
    }
    let n = stdout.len();
    let magic = n >= 5 && stdout[0] == 0x25 && stdout[1] == 0x50 && stdout[2] == 0x44 && stdout[3]
        == 0x46 && stdout[4] == 0x2D;
    proof {
        if n >= 5 {
            if magic {
                assert(stdout@.take(5) =~= pdf_magic());
            } else {
                assert(stdout@.take(5) != pdf_magic()) by {
                    if stdout@.take(5) == pdf_magic() {
                        assert(stdout@.take(5)[0] == 0x25u8);
                        assert(stdout@.take(5)[4] == 0x2Du8);
                    }
                }
            }
        }
    }
    if !magic {
        let mut s = String::from_str("script returned ");
        let d = decimal(n as u64);
        s.append(d.as_str());
        s.append(" bytes but no PDF magic. stderr: ");
        s.append(stderr.as_str());
        return Err(PdfError::NonZero { code, stderr: s });
    }
    Ok(stdout)
}

} // verus!
