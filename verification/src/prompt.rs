//! The prompts sent to the model: the request for a batch of questions and
//! the request for study notes on missed questions, with the notes used when
//! there is nothing to ask or the request failed.
use crate::engine::{
    domain_anchors, domain_anchors_text, domain_name, domain_name_text, tier_desc,
    tier_desc_text, tier_name, tier_name_text, DomainPlan, StretchPlan,
};
use crate::text::{decimal, decimal_text};
use vstd::prelude::*;
use vstd::string::StringExecFns;

verus! {

broadcast use vstd::string::group_string_axioms;

/// Opening of the question-generation prompt: the task and the JSON shape, up to the number of questions.
pub const PROMPT_INTRO: &'static str = r#"You are generating high-fidelity CISSP exam practice questions for a study app.
The target is the ISC2 CISSP exam (current CBK), where every question is judged from
the perspective of a security manager / CISO weighing CIA, business impact, regulatory
obligation, and lifecycle phase — not a sysadmin running commands.

OUTPUT FORMAT — return ONE JSON object, NO markdown fences, NO commentary, NO worked
example echoes:
{
  "questions": [
    {
      "domain": <integer 1-8>,
      "subtopic": "<short topic name, ~3-6 words>",
      "difficulty": <integer 1-4>,
      "question": "<full question stem>",
      "options": { "A": "<text>", "B": "<text>", "C": "<text>", "D": "<text>" },
      "correct": "<one of A|B|C|D>",
      "explanation": "<2-4 sentences justifying the correct answer AND why each
                          distractor is wrong>"
    }
  ]
}

Generate EXACTLY "#;

/// Text between the number of questions and the per-domain lines.
pub const PROMPT_DISTRIBUTION: &'static str = r#" questions distributed as:
"#;

/// Heading of the difficulty rubric.
pub const PROMPT_RUBRIC: &'static str = r#"

Difficulty rubric:
"#;

/// A reference question that shows the expected style.
pub const WORKED_EXAMPLE: &'static str = r#"WORKED REFERENCE EXAMPLE (style only — DO NOT copy verbatim, DO NOT include in output):

  Stem (Domain 1, Tier 3):
    "A multinational manufacturer is moving its ERP platform to a public-cloud
     IaaS provider. The CFO has signed the contract before the security team
     was engaged, and go-live is in six weeks. Regulators in two of the
     company's operating regions require demonstrable evidence of ongoing
     vendor risk management for any system processing financial records.
     Which action should the CISO take FIRST?"
  Options:
    A. Engage an external auditor to perform a SOC 2 Type II readiness review.
    B. Require the provider to complete the company's standard third-party
       risk questionnaire and review their existing SOC 2 Type II report.
    C. Insist the contract be re-negotiated to add a right-to-audit clause
       before any data is migrated.
    D. Configure cloud-native logging and forward events to the corporate SIEM.
  Correct: B
  Why it works:
    • B is the FIRST defensible governance step under a signed contract:
      gather evidence already in hand (their SOC 2) before commissioning new work.
    • A is correct in spirit but premature and aimed at the wrong party.
    • C is the manager-instinct trap — re-negotiation comes AFTER risk review,
      not before, and the contract is already executed.
    • D is the technician trap: control-implementation before risk understanding.
  Why it's exam-grade:
    • Multi-sentence scenario with cost/time/regulatory pressure.
    • Two distractors are technically reasonable but solve a different problem.
    • Uses \"FIRST\" qualifier; rewards lifecycle ordering.
    • References a real artifact (SOC 2 Type II) without trivia-grade detail."#;

/// Kinds of question the model must not produce.
pub const ANTI_PATTERNS: &'static str = r#"ANTI-PATTERNS — these will be REJECTED by validation. Do NOT produce questions that:
  • Test rote memorization of port numbers, RFC numbers, or vendor product names.
  • Have an obvious \"call security/CISO\" or \"perform risk assessment\" answer
    in EVERY scenario regardless of the stem.
  • Use the phrase \"all of the above\" or \"none of the above\".
  • Contain options of wildly different lengths (the longest option becomes the tell).
  • Include negatively-phrased stems (\"Which is NOT…\") at tier 3 or 4.
  • Reuse the same correct letter four+ times in a row.
  • Contain trick wording where two options are functionally identical.
  • Use technician language at tier 3-4 (e.g. specific CLI flags, exact CVE IDs,
    exact NIST control numbers like \"AC-2(7)\") — CISSP is a manager exam.
  • Reference current events, named real-world breaches, or vendor branding.
  • Have explanations that just restate the correct option without justifying
    why each distractor is wrong.
  • Generate questions that violate the assigned domain (e.g. a Domain 4
    question that's really an IAM question)."#;

/// The hard rules that close the question-generation prompt.
pub const PROMPT_RULES: &'static str = r#"

HARD RULES (validation will drop violators silently):
  1. "domain" MUST equal the requested CISSP domain (1-8) for that question.
  2. "difficulty" MUST equal the requested tier for that question.
  3. Exactly four options A/B/C/D per question; "correct" is one letter.
  4. The correct letter must be roughly evenly distributed across the batch
     (each of A/B/C/D appears ~25% of the time, ±1).
  5. Tier 1: ≤1 sentence stems. Tier 2: 2-4 sentence stems. Tier 3: 3-6 sentence
     stems with at least one source of pressure (cost, time, regulation,
     executive demand). Tier 4: 4-7 sentence stems with at least one piece of
     deliberate misdirection.
  6. At tier 3 and 4, the stem MUST end with an explicit qualifier — one of
     MOST, FIRST, BEST, NEXT, or PRIMARY — and the question must be answerable
     from the manager's chair.
  7. Distractors must be plausible (a candidate who half-knows the topic could
     pick them). Avoid joke distractors and avoid two distractors that mean
     the same thing.
  8. Use the anchor list above to vary subtopics within each domain block. Each
     question's "subtopic" must reference the chosen anchor in 3-6 words.
  9. Explanations: 2-4 sentences. Justify the correct option AND say in one
     short clause why each of the other three is wrong ("A solves a different
     problem; C is premature; D is a technician control before risk review").
 10. Output ONLY the JSON object. NO preface, NO closing remarks, NO worked
     example reproduction, NO markdown fences."#;

/// The study-guide prompt up to the list of missed questions.
pub const GUIDE_PROMPT_HEAD: &'static str = r#"You are writing a personalised CISSP study guide based on questions a candidate
JUST got wrong. Output ONLY GitHub-flavoured markdown (no preface, no closing).
The reader is a security manager preparing for the ISC2 CISSP exam.

Use this structure (omit a section if it doesn't apply):

## Patterns across these misses
2-4 sentences identifying the *manager-thinking* gap (e.g. "jumping to technical
controls before risk acceptance", "confusing due care with due diligence",
"choosing the technically-correct option that ignores lifecycle order"). Be
specific about which questions illustrate each pattern.

## Domain-by-domain review
For each affected CISSP domain that appears in the miss list, a `### Domain N — Name`
heading followed by:
- one short paragraph naming the underlying concept the candidate should re-study
- a bullet list of 3-6 specific topic anchors to review (frameworks, models,
lifecycle phases, named standards — not vendor products)
- one sentence on the *exam-style trap* the missed questions used

## Suggested study order
A numbered list of 3-5 concrete next actions, ordered by impact on this batch's
misses (e.g. "1. Re-read NIST SP 800-37 RMF steps; 2. Drill BIA → BCP → DR ordering
flashcards"). Each item one line.

Tone: direct, manager-level, no fluff. No emoji. No bullet headers in shouty caps.
Never reference "the user" — write in second person ("you missed…", "focus on…").

MISSED QUESTIONS:"#;

/// Study notes of a batch without a missed question.
pub const NO_MISSES_NOTES: &'static str = r#"# Nice work

No missed questions in this batch. Generate the next batch to keep stretching the harder tiers."#;

/// Study notes when the synthesis failed, before the reason.
pub const FAILED_NOTES_HEAD: &'static str = r#"# Study Notes

The AI synthesis step failed; the verbatim missed questions on the following pages are still authoritative.

_Reason:_ "#;

/// Heading of the anchor list of a domain block.
pub const ANCHOR_HEAD: &'static str = "    Pick distinct subtopics from this anchor list (do not repeat within this domain block):\n";

// ─── The question-generation prompt ────────────────────────────────────────

/// `s` after a count other than one.
pub open spec fn plural(n: u32) -> Seq<char> {
    if n == 1 {
        Seq::empty()
    } else {
        "s"@
    }
}

/// One bullet line per anchor, in order.
pub open spec fn anchor_lines(a: Seq<Seq<char>>) -> Seq<char>
    decreases a.len(),
{
    if a.len() == 0 {
        Seq::empty()
    } else {
        anchor_lines(a.drop_last()) + "      • "@ + a.last() + "\n"@
    }
}

/// The anchor list of a domain block (nothing for a domain without anchors).
pub open spec fn anchors_block(d: u8) -> Seq<char> {
    let a = domain_anchors_text(d);
    if a.len() == 0 {
        Seq::empty()
    } else {
        ANCHOR_HEAD@ + anchor_lines(a)
    }
}

/// The stretch part of a domain line.
pub open spec fn stretch_text(s: Option<StretchPlan>) -> Seq<char> {
    match s {
        Some(s) => " PLUS "@ + decimal_text(s.count as nat) + " stretch question"@ + plural(s.count)
            + " at tier "@ + decimal_text(s.tier as nat) + " ("@ + tier_name_text(s.tier) + ")"@,
        None => Seq::empty(),
    }
}

/// The block of one domain plan: its line, then its anchors.
pub open spec fn plan_entry_text(p: DomainPlan) -> Seq<char> {
    "- Domain "@ + decimal_text(p.domain as nat) + " ("@ + domain_name_text(p.domain) + "): "@
        + decimal_text(p.count as nat) + " question"@ + plural(p.count) + " at tier "@
        + decimal_text(p.tier as nat) + " ("@ + tier_name_text(p.tier) + ")"@ + stretch_text(
        p.stretch,
    ) + "\n"@ + anchors_block(p.domain)
}

/// The blocks of all domain plans, in order.
pub open spec fn plan_lines(plan: Seq<DomainPlan>) -> Seq<char>
    decreases plan.len(),
{
    if plan.len() == 0 {
        Seq::empty()
    } else {
        plan_lines(plan.drop_last()) + plan_entry_text(plan.last())
    }
}

/// The rubric line of a tier.
pub open spec fn rubric_line(t: u8) -> Seq<char> {
    "  - Tier "@ + decimal_text(t as nat) + " ("@ + tier_name_text(t) + "): "@ + tier_desc_text(t)
}

/// The difficulty rubric: tiers 1 to 4, one line each.
pub open spec fn rubric_text() -> Seq<char> {
    rubric_line(1) + "\n"@ + rubric_line(2) + "\n"@ + rubric_line(3) + "\n"@ + rubric_line(4)
}

/// The whole question-generation prompt for `plan` and `total` questions.
pub open spec fn prompt_text(plan: Seq<DomainPlan>, total: u32) -> Seq<char> {
    PROMPT_INTRO@ + decimal_text(total as nat) + PROMPT_DISTRIBUTION@ + plan_lines(plan)
        + PROMPT_RUBRIC@ + rubric_text() + "\n\n"@ + WORKED_EXAMPLE@ + "\n\n"@ + ANTI_PATTERNS@
        + PROMPT_RULES@
}

fn stretch_string(s: &Option<StretchPlan>) -> (r: String)
    ensures
        r@ == stretch_text(*s),
{
    match s {
        Some(s) => {
            let mut r = String::from_str(" PLUS ");
            r.append(decimal(s.count as u64).as_str());
            r.append(" stretch question");
            if s.count != 1 {
                r.append("s");
            }
            r.append(" at tier ");
            r.append(decimal(s.tier as u64).as_str());
            r.append(" (");
            r.append(tier_name(s.tier));
            r.append(")");
            r
        },
        None => String::new(),
    }
}

fn anchors_string(d: u8) -> (r: String)
    ensures
        r@ == anchors_block(d),
{
    let anchors = domain_anchors(d);
    let ghost a = domain_anchors_text(d);
    if anchors.len() == 0 {
        proof {
            assert(a.len() == anchors@.map_values(|s: &str| s@).len());
        }
        return String::new();
    }
    let mut lines = String::new();
    let mut j: usize = 0;
    while j < anchors.len()
        invariant
            j <= anchors@.len(),
            anchors@.map_values(|s: &str| s@) == a,
            lines@ == anchor_lines(a.take(j as int)),
        decreases anchors@.len() - j,
    {
        proof {
            assert(a.take(j + 1).drop_last() =~= a.take(j as int));
            assert(a[j as int] == anchors@[j as int]@);
        }
        lines.append("      • ");
        lines.append(anchors[j]);
        lines.append("\n");
        j = j + 1;
    }
    proof {
        assert(a.take(j as int) =~= a);
    }
    let mut r = String::from_str(ANCHOR_HEAD);
    r.append(lines.as_str());
    r
}

fn plan_entry_string(p: &DomainPlan) -> (r: String)
    ensures
        r@ == plan_entry_text(*p),
{
    let mut r = String::from_str("- Domain ");
    r.append(decimal(p.domain as u64).as_str());
    r.append(" (");
    r.append(domain_name(p.domain));
    r.append("): ");
    r.append(decimal(p.count as u64).as_str());
    r.append(" question");
    if p.count != 1 {
        r.append("s");
    }
    r.append(" at tier ");
    r.append(decimal(p.tier as u64).as_str());
    r.append(" (");
    r.append(tier_name(p.tier));
    r.append(")");
    r.append(stretch_string(&p.stretch).as_str());
    r.append("\n");
    r.append(anchors_string(p.domain).as_str());
    r
}

fn rubric_line_string(t: u8) -> (r: String)
    ensures
        r@ == rubric_line(t),
{
    let mut r = String::from_str("  - Tier ");
    r.append(decimal(t as u64).as_str());
    r.append(" (");
    r.append(tier_name(t));
    r.append("): ");
    r.append(tier_desc(t));
    r
}

/// The prompt asking the model for a batch of `total` questions laid out as
/// in `plan`: the JSON shape, one block per domain with its topic anchors,
/// the difficulty rubric, a worked example, the anti-patterns and the rules.
pub fn build_prompt(plan: &[DomainPlan], total: u32) -> (r: String)
    ensures
        r@ == prompt_text(plan@, total),
{
    let mut lines = String::new();
    let mut i: usize = 0;
    while i < plan.len()
        invariant
            i <= plan@.len(),
            lines@ == plan_lines(plan@.take(i as int)),
        decreases plan@.len() - i,
    {
        proof {
            assert(plan@.take(i + 1).drop_last() =~= plan@.take(i as int));
        }
        lines.append(plan_entry_string(&plan[i]).as_str());
        i = i + 1;
    }
    proof {
        assert(plan@.take(i as int) =~= plan@);
    }
    let mut rubric = rubric_line_string(1);
    rubric.append("\n");
    rubric.append(rubric_line_string(2).as_str());
    rubric.append("\n");
    rubric.append(rubric_line_string(3).as_str());
    rubric.append("\n");
    rubric.append(rubric_line_string(4).as_str());

    let mut r = String::from_str(PROMPT_INTRO);
    r.append(decimal(total as u64).as_str());
    r.append(PROMPT_DISTRIBUTION);
    r.append(lines.as_str());
    r.append(PROMPT_RUBRIC);
    r.append(rubric.as_str());
    r.append("\n\n");
    r.append(WORKED_EXAMPLE);
    r.append("\n\n");
    r.append(ANTI_PATTERNS);
    r.append(PROMPT_RULES);
    r
}

// ─── The study-guide prompt ────────────────────────────────────────────────

/// A question answered wrongly, as the study guide shows it.
#[derive(Debug, Clone)]
pub struct MissedQuestion {
    pub id: String,
    pub domain: u8,
    pub tier: u8,
    pub subtopic: Option<String>,
    pub question: String,
    pub options_json: String,
    pub user_answer: Option<String>,
    pub correct: String,
    pub explanation: Option<String>,
}

/// The answer picked, `-` when none was.
pub open spec fn picked_text(a: Option<String>) -> Seq<char> {
    match a {
        Some(s) => s@,
        None => "-"@,
    }
}

/// The summary of the `n`-th missed question (counting from 1).
pub open spec fn missed_entry_text(n: nat, q: MissedQuestion) -> Seq<char> {
    "\n"@ + decimal_text(n) + ". D"@ + decimal_text(q.domain as nat) + " ("@ + domain_name_text(
        q.domain,
    ) + ") ["@ + tier_name_text(q.tier) + "]: "@ + q.question@ + "\n   user picked "@
        + picked_text(q.user_answer) + "; correct was "@ + q.correct@
}

/// The summaries of all missed questions, numbered in order.
pub open spec fn missed_entries(m: Seq<MissedQuestion>) -> Seq<char>
    decreases m.len(),
{
    if m.len() == 0 {
        Seq::empty()
    } else {
        missed_entries(m.drop_last()) + missed_entry_text(m.len(), m.last())
    }
}

/// The whole study-guide prompt for the missed questions `m`.
pub open spec fn study_guide_prompt_text(m: Seq<MissedQuestion>) -> Seq<char> {
    GUIDE_PROMPT_HEAD@ + missed_entries(m)
}

fn missed_entry_string(n: u64, q: &MissedQuestion) -> (r: String)
    ensures
        r@ == missed_entry_text(n as nat, *q),
{
    let mut r = String::from_str("\n");
    r.append(decimal(n).as_str());
    r.append(". D");
    r.append(decimal(q.domain as u64).as_str());
    r.append(" (");
    r.append(domain_name(q.domain));
    r.append(") [");
    r.append(tier_name(q.tier));
    r.append("]: ");
    r.append(q.question.as_str());
    r.append("\n   user picked ");
    match &q.user_answer {
        Some(a) => r.append(a.as_str()),
        None => r.append("-"),
    }
    r.append("; correct was ");
    r.append(q.correct.as_str());
    r
}

/// The prompt asking the model for study notes on the missed questions:
/// the structure wanted, then each question numbered with its domain, tier,
/// stem, the answer picked and the right one.
pub fn build_study_guide_prompt(missed: &[MissedQuestion]) -> (r: String)
    ensures
        r@ == study_guide_prompt_text(missed@),
{
    let mut entries = String::new();
    let mut i: usize = 0;
    while i < missed.len()
        invariant
            i <= missed@.len(),
            entries@ == missed_entries(missed@.take(i as int)),
        decreases missed@.len() - i,
    {
        proof {
            assert(missed@.take(i + 1).drop_last() =~= missed@.take(i as int));
        }
        entries.append(missed_entry_string(i as u64 + 1, &missed[i]).as_str());
        i = i + 1;
    }
    proof {
        assert(missed@.take(i as int) =~= missed@);
    }
    let mut r = String::from_str(GUIDE_PROMPT_HEAD);
    r.append(entries.as_str());
    r
}

/// The study notes that go into the guide: `None` when nothing was missed,
/// else what the synthesis returned or why it failed.
pub open spec fn study_notes_text(synthesis: Option<Result<String, String>>) -> Seq<char> {
    match synthesis {
        None => NO_MISSES_NOTES@,
        Some(Ok(notes)) => notes@,
        Some(Err(reason)) => FAILED_NOTES_HEAD@ + reason@,
    }
}

/// The notes of a study guide: a short note when nothing was missed, the
/// model's notes, or a note that the synthesis failed with its reason (the
/// missed questions themselves still follow in the guide).
pub fn study_notes(synthesis: Option<Result<String, String>>) -> (r: String)
    ensures
        r@ == study_notes_text(synthesis),
{
    match synthesis {
        None => String::from_str(NO_MISSES_NOTES),
        Some(Ok(notes)) => notes,
        Some(Err(reason)) => {
            let mut r = String::from_str(FAILED_NOTES_HEAD);
            r.append(reason.as_str());
            r
        },
    }
}

} // verus!
