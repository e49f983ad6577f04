use cissp_coach::engine::{domain_anchors, DomainPlan, StretchPlan};
use cissp_coach::prompt::{
    build_prompt, build_study_guide_prompt, study_notes, MissedQuestion, ANTI_PATTERNS,
    FAILED_NOTES_HEAD, GUIDE_PROMPT_HEAD, NO_MISSES_NOTES, PROMPT_DISTRIBUTION, PROMPT_INTRO,
    PROMPT_RUBRIC, PROMPT_RULES, WORKED_EXAMPLE,
};

const RUBRIC: &str = "  - Tier 1 (Easy): Recall / definitions phrased in a one-sentence business context (e.g. \"Which control type is a security awareness program?\"). One clearly correct answer; distractors share the same category but are easy to rule out. Still uses CISSP vocabulary, not technician trivia.\n  - Tier 2 (Moderate): Two-to-four sentence scenario with a single decision point. Two of four distractors are close in topic but wrong in scope; uses softer qualifiers (\"BEST\", \"PRIMARY\"). Requires picking the manager-level concern rather than the technical detail.\n  - Tier 3 (Hard): Multi-sentence scenario with competing pressures (cost, time, regulation, executive demand). At least two distractors are technically correct but solve a different problem; the right answer addresses ROOT CAUSE or the FIRST step in a lifecycle. Uses \"MOST\", \"FIRST\", \"NEXT\" qualifiers; references real frameworks (NIST RMF, ISO 27001, BCP/DR phases, OWASP, Saltzer & Schroeder, STRIDE) where relevant.\n  - Tier 4 (Expert): Real-exam-style scenario, typically 4-7 sentences with at least one piece of misdirecting context (urgent breach, angry executive, sensitive data type that ISN'T the pillar under attack). Two distractors are seductive technician answers; one is the obvious-but-wrong manager answer; the correct option reflects CISO judgement, balances CIA against business impact, and is the FIRST/MOST/BEST action in the lifecycle phase implied by the stem.";

fn anchor_block(d: u8) -> String {
    let mut s = String::from(
        "    Pick distinct subtopics from this anchor list (do not repeat within this domain block):\n",
    );
    for a in domain_anchors(d) {
        s.push_str("      • ");
        s.push_str(a);
        s.push('\n');
    }
    s
}

#[test]
fn prompt_pieces_are_the_expected_texts() {
    assert!(PROMPT_INTRO.starts_with(
        "You are generating high-fidelity CISSP exam practice questions for a study app.\n"
    ));
    assert!(PROMPT_INTRO.contains("      \"options\": { \"A\": \"<text>\", \"B\": \"<text>\", \"C\": \"<text>\", \"D\": \"<text>\" },\n"));
    assert!(PROMPT_INTRO.ends_with("  ]\n}\n\nGenerate EXACTLY "));
    assert_eq!(PROMPT_DISTRIBUTION, " questions distributed as:\n");
    assert_eq!(PROMPT_RUBRIC, "\n\nDifficulty rubric:\n");
    assert!(WORKED_EXAMPLE.starts_with("WORKED REFERENCE EXAMPLE (style only"));
    assert!(WORKED_EXAMPLE.contains("    • Uses \\\"FIRST\\\" qualifier; rewards lifecycle ordering."));
    assert!(ANTI_PATTERNS.starts_with("ANTI-PATTERNS — these will be REJECTED by validation."));
    assert!(PROMPT_RULES.starts_with("\n\nHARD RULES (validation will drop violators silently):\n"));
    assert!(PROMPT_RULES.ends_with("NO worked\n     example reproduction, NO markdown fences."));
}

#[test]
fn build_prompt_lays_out_the_plan() {
    let plan = vec![
        DomainPlan { domain: 1, tier: 2, count: 8, stretch: Some(StretchPlan { tier: 3, count: 2 }) },
        DomainPlan { domain: 5, tier: 4, count: 1, stretch: None },
        DomainPlan { domain: 8, tier: 1, count: 4, stretch: Some(StretchPlan { tier: 2, count: 1 }) },
    ];
    let p = build_prompt(&plan, 16);
    let lines = format!(
        "- Domain 1 (Security & Risk Management): 8 questions at tier 2 (Moderate) PLUS 2 stretch questions at tier 3 (Hard)\n{}\
         - Domain 5 (Identity & Access Management): 1 question at tier 4 (Expert)\n{}\
         - Domain 8 (Software Development Security): 4 questions at tier 1 (Easy) PLUS 1 stretch question at tier 2 (Moderate)\n{}",
        anchor_block(1),
        anchor_block(5),
        anchor_block(8)
    );
    let expected = format!(
        "{PROMPT_INTRO}16{PROMPT_DISTRIBUTION}{lines}{PROMPT_RUBRIC}{RUBRIC}\n\n{WORKED_EXAMPLE}\n\n{ANTI_PATTERNS}{PROMPT_RULES}"
    );
    assert_eq!(p, expected);
    assert!(p.contains("\n      • due care vs due diligence\n"));
}

#[test]
fn build_prompt_skips_anchors_of_unknown_domains() {
    let plan = vec![DomainPlan { domain: 9, tier: 7, count: 0, stretch: None }];
    let p = build_prompt(&plan, 0);
    let expected = format!(
        "{PROMPT_INTRO}0{PROMPT_DISTRIBUTION}- Domain 9 (Unknown): 0 questions at tier 7 (?)\n{PROMPT_RUBRIC}{RUBRIC}\n\n{WORKED_EXAMPLE}\n\n{ANTI_PATTERNS}{PROMPT_RULES}"
    );
    assert_eq!(p, expected);
}

fn missed(domain: u8, tier: u8, stem: &str, picked: Option<&str>, correct: &str) -> MissedQuestion {
    MissedQuestion {
        id: "q-1".to_string(),
        domain,
        tier,
        subtopic: None,
        question: stem.to_string(),
        options_json: "{}".to_string(),
        user_answer: picked.map(|s| s.to_string()),
        correct: correct.to_string(),
        explanation: None,
    }
}

#[test]
fn study_guide_prompt_lists_the_misses() {
    let m = vec![
        missed(2, 3, "Who owns the data?", Some("C"), "A"),
        missed(7, 1, "First step?", None, "B"),
    ];
    let p = build_study_guide_prompt(&m);
    assert_eq!(
        p,
        format!(
            "{GUIDE_PROMPT_HEAD}\n1. D2 (Asset Security) [Hard]: Who owns the data?\n   user picked C; correct was A\
             \n2. D7 (Security Operations) [Easy]: First step?\n   user picked -; correct was B"
        )
    );
    assert!(GUIDE_PROMPT_HEAD.starts_with("You are writing a personalised CISSP study guide"));
    assert!(GUIDE_PROMPT_HEAD.ends_with("(\"you missed…\", \"focus on…\").\n\nMISSED QUESTIONS:"));
    assert_eq!(build_study_guide_prompt(&[]), GUIDE_PROMPT_HEAD);
}

#[test]
fn study_notes_cover_every_outcome() {
    assert_eq!(
        study_notes(None),
        "# Nice work\n\nNo missed questions in this batch. Generate the next batch to keep stretching the harder tiers."
    );
    assert_eq!(study_notes(None), NO_MISSES_NOTES);
    assert_eq!(study_notes(Some(Ok("## Notes".to_string()))), "## Notes");
    assert_eq!(
        study_notes(Some(Err("network: down".to_string()))),
        "# Study Notes\n\nThe AI synthesis step failed; the verbatim missed questions on the following pages are still authoritative.\n\n_Reason:_ network: down"
    );
    assert!(FAILED_NOTES_HEAD.ends_with("_Reason:_ "));
}
