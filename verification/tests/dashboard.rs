use cissp_coach::dashboard::dashboard;
use cissp_coach::engine::{Difficulty, DomainStat, Stats, BATCH_SIZE};

#[test]
fn dashboard_reports_cards_totals_and_weakest() {
    let mut stats = Stats::new();
    for d in 1..=8u8 {
        stats.insert(d, DomainStat::empty());
    }
    stats.insert(2, DomainStat { attempted: 10, correct: 3, recent_correct: vec![0, 1, 0, 0, 1, 0, 0, 0, 1, 0] });
    stats.insert(5, DomainStat { attempted: 4, correct: 4, recent_correct: vec![1, 1, 1, 1] });
    stats.insert(7, DomainStat { attempted: 10, correct: 3, recent_correct: vec![] });
    let mut diff = Difficulty::new();
    for d in 1..=8u8 {
        diff.insert(d, 1);
    }
    diff.insert(5, 4);
    let db = dashboard(&stats, &diff, 14);
    assert_eq!(db.total_questions, 14);
    assert_eq!(db.domains.len(), 8);
    // Domains 2 and 7 tie at 3/10; the first one wins.
    assert_eq!(db.weakest_domain, Some(2));
    let overall = db.overall_accuracy.unwrap();
    assert_eq!((overall.num, overall.den), (10, 24));
    let c5 = &db.domains[4];
    assert_eq!(c5.domain, 5);
    assert_eq!(c5.name, "Identity & Access Management");
    assert_eq!(c5.short, "IAM");
    assert_eq!(c5.tier, 4);
    assert_eq!(c5.tier_name, "Expert");
    assert_eq!(c5.stretch_count, 0);
    assert_eq!(c5.stretch_tier, None);
    let l5 = c5.lifetime_accuracy.unwrap();
    assert_eq!((l5.num, l5.den), (4, 4));
    let c1 = &db.domains[0];
    assert!(c1.lifetime_accuracy.is_none());
    assert_eq!((c1.rolling_accuracy.num, c1.rolling_accuracy.den), (1, 2));
    let c2 = &db.domains[1];
    assert_eq!((c2.rolling_accuracy.num, c2.rolling_accuracy.den), (3, 10));
    let planned: u32 = db.domains.iter().map(|c| c.planned_count + c.stretch_count).sum();
    assert_eq!(planned, BATCH_SIZE);
    for c in &db.domains {
        if c.stretch_count > 0 {
            assert_eq!(c.stretch_tier, Some(c.tier + 1));
        }
    }
}

#[test]
fn dashboard_without_answers() {
    let db = dashboard(&Stats::new(), &Difficulty::new(), 0);
    assert!(db.overall_accuracy.is_none());
    assert!(db.weakest_domain.is_none());
    assert_eq!(db.domains[7].tier, 1);
    assert_eq!(db.domains[7].tier_name, "Easy");
}
