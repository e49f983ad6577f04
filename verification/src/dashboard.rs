//! The overview shown on the quiz tab: per-domain standing, the next batch's
//! plan, overall accuracy and the weakest domain.
use crate::engine::{
    build_batch_plan, domain_name, domain_name_text, domain_short, domain_short_text,
    planned_counts, plan_matches, stored_tier, tier_name, tier_name_text, Accuracy, DomainPlan,
    DomainStat, Difficulty, Stats, BATCH_SIZE,
};
use vstd::prelude::*;

verus! {

broadcast use vstd::std_specs::btree::group_btree_axioms;

/// One domain card of the dashboard.
#[derive(Debug, Clone)]
pub struct DomainSummary {
    pub domain: u8,
    pub name: &'static str,
    pub short: &'static str,
    pub attempted: u32,
    pub correct: u32,
    pub lifetime_accuracy: Option<Accuracy>,
    pub rolling_accuracy: Accuracy,
    pub tier: u8,
    pub tier_name: &'static str,
    pub planned_count: u32,
    pub stretch_count: u32,
    pub stretch_tier: Option<u8>,
}

/// The dashboard.
#[derive(Debug, Clone)]
pub struct Dashboard {
    pub total_questions: u32,
    pub overall_accuracy: Option<Accuracy>,
    pub weakest_domain: Option<u8>,
    pub domains: Vec<DomainSummary>,
}

/// Attempted and correct answers of domain `d` (zero without statistics).
pub open spec fn totals_of(stats: Map<u8, DomainStat>, d: u8) -> (u32, u32) {
    if stats.contains_key(d) {
        (stats[d].attempted, stats[d].correct)
    } else {
        (0, 0)
    }
}

/// Whether lifetime accuracy `c1 / a1` is below `c2 / a2`.
pub open spec fn below(c1: int, a1: int, c2: int, a2: int) -> bool {
    c1 * a2 < c2 * a1
}

/// Among domains `1..=k`, the one with the lowest lifetime accuracy (the
/// first on a tie); domains without answers do not count.
pub open spec fn weakest_upto(stats: Map<u8, DomainStat>, k: int) -> Option<u8>
    decreases k,
{
    if k <= 0 {
        None
    } else {
        let prev = weakest_upto(stats, k - 1);
        let d = k as u8;
        let t = totals_of(stats, d);
        if t.0 > 0 {
            match prev {
                None => Some(d),
                Some(p) => {
                    let tp = totals_of(stats, p);
                    if below(t.1 as int, t.0 as int, tp.1 as int, tp.0 as int) {
                        Some(d)
                    } else {
                        prev
                    }
                },
            }
        } else {
            prev
        }
    }
}

pub open spec fn total_attempted_upto(stats: Map<u8, DomainStat>, k: int) -> int
    decreases k,
{
    if k <= 0 {
        0
    } else {
        total_attempted_upto(stats, k - 1) + totals_of(stats, k as u8).0
    }
}

pub open spec fn total_correct_upto(stats: Map<u8, DomainStat>, k: int) -> int
    decreases k,
{
    if k <= 0 {
        0
    } else {
        total_correct_upto(stats, k - 1) + totals_of(stats, k as u8).1
    }
}

/// Card `i` (domain `i + 1`) shows the domain's statistics, its stored tier
/// and its share of the next batch.
pub open spec fn card_matches(c: DomainSummary, stats: Map<u8, DomainStat>, diff: Map<u8, u8>, i: int) -> bool {
    let d = (i + 1) as u8;
    let t = totals_of(stats, d);
    let plan = planned_counts(stats, diff, BATCH_SIZE)[i];
    &&& c.domain == d
    &&& c.name@ == domain_name_text(d)
    &&& c.short@ == domain_short_text(d)
    &&& c.attempted == t.0
    &&& c.correct == t.1
    &&& c.lifetime_accuracy == if t.0 == 0 {
        None
    } else {
        Some(Accuracy { num: t.1 as u128, den: t.0 as u128 })
    }
    &&& (c.rolling_accuracy.num as nat, c.rolling_accuracy.den as nat) == crate::engine::domain_acc(stats, d)
    &&& c.tier == stored_tier(diff, d)
    &&& c.tier_name@ == tier_name_text(c.tier)
    &&& exists|p: DomainPlan|
        #![trigger plan_matches(p, diff, i, plan)]
        plan_matches(p, diff, i, plan) && c.planned_count == p.count && match p.stretch {
            Some(s) => c.stretch_count == s.count && c.stretch_tier == Some(s.tier),
            None => c.stretch_count == 0 && c.stretch_tier is None,
        }
}

/// The dashboard: one card per domain, overall accuracy over all domains,
/// and the weakest domain by lifetime accuracy.
pub fn dashboard(stats: &Stats, diff: &Difficulty, total_questions: u32) -> (db: Dashboard)
    ensures
        db.total_questions == total_questions,
        db.domains@.len() == 8,
        forall|i: int| 0 <= i < 8 ==> card_matches(#[trigger] db.domains@[i], stats@, diff@, i),
        db.weakest_domain == weakest_upto(stats@, 8),
        total_attempted_upto(stats@, 8) == 0 ==> db.overall_accuracy is None,
        total_attempted_upto(stats@, 8) > 0 ==> db.overall_accuracy == Some(
            Accuracy {
                num: total_correct_upto(stats@, 8) as u128,
                den: total_attempted_upto(stats@, 8) as u128,
            },
        ),
{
    let plan = build_batch_plan(stats, diff, BATCH_SIZE);
    let mut total_attempted: u64 = 0;
    let mut total_correct: u64 = 0;
    let mut weakest: Option<(u8, u32, u32)> = None;
    let mut domains: Vec<DomainSummary> = Vec::new();
    let mut d: u8 = 1;
    while d <= 8
        invariant
            1 <= d <= 9,
            plan@.len() == 8,
            forall|i: int|
                0 <= i < 8 ==> plan_matches(
                    #[trigger] plan@[i],
                    diff@,
                    i,
                    planned_counts(stats@, diff@, BATCH_SIZE)[i],
                ),
            domains@.len() == d - 1,
            forall|i: int| 0 <= i < d - 1 ==> card_matches(#[trigger] domains@[i], stats@, diff@, i),
            total_attempted == total_attempted_upto(stats@, d - 1),
            total_correct == total_correct_upto(stats@, d - 1),
            total_attempted <= (d - 1) * 0xFFFF_FFFF,
            total_correct <= (d - 1) * 0xFFFF_FFFF,
            match weakest {
                None => weakest_upto(stats@, d - 1) is None,
                Some(w) => weakest_upto(stats@, d - 1) == Some(w.0) && (w.1, w.2) == totals_of(
                    stats@,
                    w.0,
                ) && w.1 > 0,
            },
        decreases 9 - d,
    {
        let (attempted, correct, rolling) = match stats.get(&d) {
            Some(s) => (s.attempted, s.correct, s.rolling_accuracy()),
            None => (0, 0, Accuracy { num: 1, den: 2 }),
        };
        total_attempted = total_attempted + attempted as u64;
        total_correct = total_correct + correct as u64;
        let lifetime = if attempted == 0 {
            None
        } else {
            Some(Accuracy { num: correct as u128, den: attempted as u128 })
        };
        if attempted > 0 {
            match weakest {
                None => {
                    weakest = Some((d, attempted, correct));
                },
                Some((_, pa, pc)) => {
                    let a1: u128 = correct as u128;
                    let b1: u128 = pa as u128;
                    let a2: u128 = pc as u128;
                    let b2: u128 = attempted as u128;
                    assert(a1 * b1 <= 0xFFFF_FFFF * 0xFFFF_FFFF) by (nonlinear_arith)
                        requires
                            a1 <= 0xFFFF_FFFF,
                            b1 <= 0xFFFF_FFFF,
                    ;
                    assert(a2 * b2 <= 0xFFFF_FFFF * 0xFFFF_FFFF) by (nonlinear_arith)
                        requires
                            a2 <= 0xFFFF_FFFF,
                            b2 <= 0xFFFF_FFFF,
                    ;
                    if a1 * b1 < a2 * b2 {
                        weakest = Some((d, attempted, correct));
                    }
                },
            }
        }
        let tier = match diff.get(&d) {
            Some(t) => *t,
            None => 1,
        };
        let p = &plan[(d - 1) as usize];
        let (stretch_count, stretch_tier) = match &p.stretch {
            Some(s) => (s.count, Some(s.tier)),
            None => (0, None),
        };
        let card = DomainSummary {
            domain: d,
            name: domain_name(d),
            short: domain_short(d),
            attempted,
            correct,
            lifetime_accuracy: lifetime,
            rolling_accuracy: rolling,
            tier,
            tier_name: tier_name(tier),
            planned_count: p.count,
            stretch_count,
            stretch_tier,
        };
        assert(card_matches(card, stats@, diff@, d - 1)) by {
            assert(plan_matches(plan@[d - 1], diff@, d - 1, planned_counts(stats@, diff@, BATCH_SIZE)[d - 1]));
        }
        domains.push(card);
        d = d + 1;
    }
    let overall = if total_attempted == 0 {
        None
    } else {
        Some(Accuracy { num: total_correct as u128, den: total_attempted as u128 })
    };
    Dashboard {
        total_questions,
        overall_accuracy: overall,
        weakest_domain: match weakest {
            Some(w) => Some(w.0),
            None => None,
        },
        domains,
    }
}

} // verus!
