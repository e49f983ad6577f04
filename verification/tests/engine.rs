use cissp_coach::engine::{
    apply_difficulty_progression, build_batch_plan, compute_distribution, domain_anchors,
    domain_name, domain_short, planned_questions, tier_desc, tier_name, Difficulty, DomainPlan, DomainStat, Stats, StretchPlan, BATCH_SIZE,
    COUNT_CEIL, COUNT_FLOOR, DOMAINS,
};

fn empty_diff() -> Difficulty {
    let mut m = Difficulty::new();
    for (d, _, _) in DOMAINS {
        m.insert(d, 1);
    }
    m
}

fn empty_stats() -> Stats {
    let mut m = Stats::new();
    for (d, _, _) in DOMAINS {
        m.insert(d, DomainStat::empty());
    }
    m
}

fn stat_with(attempted: u32, correct: u32, recent: &[u8]) -> DomainStat {
    DomainStat {
        attempted,
        correct,
        recent_correct: recent.to_vec(),
    }
}

fn rolling(s: &DomainStat) -> f64 {
    let a = s.rolling_accuracy();
    a.num as f64 / a.den as f64
}

#[test]
fn rolling_accuracy_cold_start_returns_half() {
    let s = stat_with(2, 2, &[1, 1]);
    assert!((rolling(&s) - 0.5).abs() < 1e-9);
}

#[test]
fn rolling_accuracy_uses_window_when_warm() {
    let s = stat_with(20, 20, &[1, 0, 0, 0, 0, 0, 0, 0, 0, 0]); // 1/10
    assert!((rolling(&s) - 0.1).abs() < 1e-9);
}

#[test]
fn rolling_accuracy_falls_back_to_lifetime_when_window_empty() {
    let s = stat_with(10, 4, &[]);
    assert!((rolling(&s) - 0.4).abs() < 1e-9);
}

#[test]
fn distribution_sums_to_target_with_clamps_cold() {
    let stats = empty_stats();
    let diff = empty_diff();
    let dist = compute_distribution(&stats, &diff, BATCH_SIZE);
    let total: u32 = dist.values().sum();
    assert_eq!(total, BATCH_SIZE);
    for (_, v) in &dist {
        assert!(*v >= COUNT_FLOOR);
        assert!(*v <= COUNT_CEIL);
    }
    assert_eq!(dist.len(), DOMAINS.len());
}

#[test]
fn distribution_pulls_weight_to_weakest_domain() {
    let mut stats = empty_stats();
    // D5 weak (10% rolling) — fully attempted
    stats.insert(5, stat_with(20, 2, &[1, 0, 0, 0, 0, 0, 0, 0, 0, 0]));
    // Other 7 strong (90%)
    for (d, _, _) in DOMAINS {
        if d == 5 {
            continue;
        }
        stats.insert(d, stat_with(20, 18, &[1, 1, 1, 1, 1, 1, 1, 1, 1, 0]));
    }
    let diff = empty_diff();
    let dist = compute_distribution(&stats, &diff, BATCH_SIZE);
    let weak = *dist.get(&5).unwrap();
    for (d, _, _) in DOMAINS {
        if d == 5 {
            continue;
        }
        assert!(
            weak >= *dist.get(&d).unwrap(),
            "weak domain {} should have ≥ count than domain {}",
            5,
            d
        );
    }
    // Weak domain should be at or near the ceiling.
    assert!(weak >= 8, "expected weak domain to grow toward ceiling, got {weak}");
}

#[test]
fn mastered_top_tier_domain_collapses_to_floor() {
    let mut stats = empty_stats();
    // D3 mastered: 95% rolling.
    stats.insert(3, stat_with(40, 38, &[1, 1, 1, 1, 1, 1, 1, 1, 1, 1]));
    // Everyone else neutral (50% rolling, attempted ≥ 5)
    for (d, _, _) in DOMAINS {
        if d == 3 {
            continue;
        }
        stats.insert(d, stat_with(10, 5, &[1, 0, 1, 0, 1, 0, 1, 0, 1, 0]));
    }
    let mut diff = empty_diff();
    diff.insert(3, 4); // top tier
    let dist = compute_distribution(&stats, &diff, BATCH_SIZE);
    assert_eq!(*dist.get(&3).unwrap(), COUNT_FLOOR);
}

#[test]
fn build_batch_plan_adds_stretch_when_count_ge_6_and_below_top() {
    let mut stats = empty_stats();
    // Force D7 to be the weakest so it gets a fat slice.
    stats.insert(7, stat_with(20, 0, &[0; 10]));
    let mut diff = empty_diff();
    diff.insert(7, 2);
    let plan = build_batch_plan(&stats, &diff, BATCH_SIZE);
    let p7 = plan.iter().find(|p| p.domain == 7).unwrap();
    assert!(p7.count + p7.stretch.as_ref().map(|s| s.count).unwrap_or(0) >= 6);
    let s = p7.stretch.as_ref().expect("stretch should be present at tier 2 with ≥6 count");
    assert_eq!(s.tier, 3);
    assert!(s.count >= 1);
}

#[test]
fn build_batch_plan_no_stretch_at_top_tier() {
    let mut stats = empty_stats();
    stats.insert(4, stat_with(20, 0, &[0; 10]));
    let mut diff = empty_diff();
    diff.insert(4, 4); // top tier — never stretch
    let plan = build_batch_plan(&stats, &diff, BATCH_SIZE);
    let p4 = plan.iter().find(|p| p.domain == 4).unwrap();
    assert!(p4.stretch.is_none());
}

#[test]
fn build_batch_plan_no_stretch_when_count_under_6() {
    let stats = empty_stats(); // all cold-start, even slice ≈ 6.25 → most domains 6
    let diff = empty_diff();
    let plan = build_batch_plan(&stats, &diff, 24); // smaller target → ~3 each
    for p in &plan {
        // For target 24 nobody should breach 6.
        assert!(
            p.count + p.stretch.as_ref().map(|s| s.count).unwrap_or(0) < 6
                || p.stretch.is_some(),
            "plan invariant violated for D{}",
            p.domain
        );
        if p.count + p.stretch.as_ref().map(|s| s.count).unwrap_or(0) < 6 {
            assert!(p.stretch.is_none(), "D{} got stretch under 6 slots", p.domain);
        }
    }
}

#[test]
fn progression_promotes_at_or_above_threshold() {
    let mut stats = empty_stats();
    // 8/10 = 0.80, exactly the promote threshold.
    stats.insert(1, stat_with(20, 16, &[1, 1, 1, 1, 1, 1, 1, 1, 0, 0]));
    let mut diff = empty_diff();
    diff.insert(1, 2);
    let changes = apply_difficulty_progression(&stats, &mut diff);
    assert_eq!(diff.get(&1).copied().unwrap(), 3);
    let c = changes.get(&1).unwrap();
    assert_eq!(c.from, 2);
    assert_eq!(c.to, 3);
}

#[test]
fn progression_demotes_at_or_below_threshold() {
    let mut stats = empty_stats();
    // 4/10 = 0.40, exactly the demote threshold.
    stats.insert(2, stat_with(20, 8, &[1, 1, 1, 1, 0, 0, 0, 0, 0, 0]));
    let mut diff = empty_diff();
    diff.insert(2, 3);
    apply_difficulty_progression(&stats, &mut diff);
    assert_eq!(diff.get(&2).copied().unwrap(), 2);
}

#[test]
fn progression_holds_in_middle_band() {
    let mut stats = empty_stats();
    // 6/10 = 0.60, between thresholds.
    stats.insert(3, stat_with(20, 12, &[1, 1, 1, 1, 1, 1, 0, 0, 0, 0]));
    let mut diff = empty_diff();
    diff.insert(3, 2);
    apply_difficulty_progression(&stats, &mut diff);
    assert_eq!(diff.get(&3).copied().unwrap(), 2);
}

#[test]
fn progression_skips_when_window_under_5() {
    let mut stats = empty_stats();
    // Perfect score but only 3 samples — should not promote.
    stats.insert(4, stat_with(3, 3, &[1, 1, 1]));
    let mut diff = empty_diff();
    diff.insert(4, 1);
    apply_difficulty_progression(&stats, &mut diff);
    assert_eq!(diff.get(&4).copied().unwrap(), 1);
}

#[test]
fn progression_does_not_overshoot_top_or_bottom() {
    let mut stats = empty_stats();
    // Domain at top tier crushing it shouldn't go to tier 5.
    stats.insert(5, stat_with(20, 20, &[1; 10]));
    // Domain at bottom tier flubbing shouldn't go below 1.
    stats.insert(6, stat_with(20, 0, &[0; 10]));
    let mut diff = empty_diff();
    diff.insert(5, 4);
    diff.insert(6, 1);
    apply_difficulty_progression(&stats, &mut diff);
    assert_eq!(diff.get(&5).copied().unwrap(), 4);
    assert_eq!(diff.get(&6).copied().unwrap(), 1);
}

#[test]
fn domain_anchors_cover_all_eight_domains() {
    for (d, _, _) in DOMAINS {
        let a = domain_anchors(d);
        assert!(!a.is_empty(), "domain {d} has no anchors");
        assert!(a.len() >= 5, "domain {d} should have ≥5 anchors, got {}", a.len());
    }
    assert!(domain_anchors(99).is_empty());
}

// ─── Further cases ──────────────────────────────────────────────────────────

#[test]
fn names_and_tiers_match_tables() {
    assert_eq!(domain_name(1), "Security & Risk Management");
    assert_eq!(domain_name(9), "Unknown");
    assert_eq!(domain_short(3), "Arch / Eng");
    assert_eq!(domain_short(0), "?");
    assert_eq!(tier_name(4), "Expert");
    assert_eq!(tier_name(5), "?");
    assert!(tier_desc(2).starts_with("Two-to-four sentence scenario"));
    assert_eq!(tier_desc(0), "");
    for (d, name, short) in DOMAINS {
        assert_eq!(domain_name(d), name);
        assert_eq!(domain_short(d), short);
    }
}

#[test]
fn distribution_of_cold_start_is_even() {
    // Equal weights: 50 * 1/8 = 6.25 -> 6 each (48), then two single steps.
    let dist = compute_distribution(&empty_stats(), &empty_diff(), BATCH_SIZE);
    let counts: Vec<u32> = dist.values().copied().collect();
    assert_eq!(counts, vec![7, 7, 6, 6, 6, 6, 6, 6]);
}

#[test]
fn distribution_total_is_clamped_to_what_domains_hold() {
    let dist = compute_distribution(&empty_stats(), &empty_diff(), 5);
    assert_eq!(dist.values().sum::<u32>(), 16);
    let dist = compute_distribution(&empty_stats(), &empty_diff(), 500);
    assert_eq!(dist.values().sum::<u32>(), 120);
    assert!(dist.values().all(|&v| v == 15));
}

#[test]
fn plan_totals_follow_distribution() {
    let mut stats = empty_stats();
    stats.insert(2, stat_with(20, 1, &[0, 0, 0, 0, 0, 0, 0, 0, 0, 1]));
    let diff = empty_diff();
    let dist = compute_distribution(&stats, &diff, BATCH_SIZE);
    let plan = build_batch_plan(&stats, &diff, BATCH_SIZE);
    assert_eq!(plan.len(), 8);
    let mut sum = 0;
    for p in &plan {
        assert_eq!(p.total(), dist[&p.domain]);
        sum += p.total();
    }
    assert_eq!(sum, BATCH_SIZE);
    // 11.55 -> 12 questions at tier 1 -> 2 stretch at tier 2, 10 regular.
    let p2 = &plan[1];
    assert_eq!(p2.total(), 12);
    assert_eq!(p2.count, 10);
    assert_eq!(p2.stretch.unwrap().count, 2);
    assert_eq!(p2.stretch.unwrap().tier, 2);
}

#[test]
fn progression_reports_every_domain_and_leaves_uncalibrated_alone() {
    let mut stats = empty_stats();
    stats.insert(1, stat_with(20, 20, &[1; 10]));
    let mut diff = Difficulty::new();
    diff.insert(7, 9); // out of range, uncalibrated: reported clamped, kept stored
    let changes = apply_difficulty_progression(&stats, &mut diff);
    assert_eq!(changes.len(), 8);
    assert_eq!(changes[&1].from, 1);
    assert_eq!(changes[&1].to, 2);
    assert_eq!(diff.get(&1), Some(&2));
    assert_eq!(changes[&7].from, 4);
    assert_eq!(changes[&7].to, 4);
    assert_eq!(diff.get(&7), Some(&9));
    assert_eq!(diff.get(&3), None);
}

#[test]
fn record_answer_keeps_last_ten() {
    let mut s = stat_with(12, 5, &[0, 0, 0, 0, 0, 0, 0, 0, 0, 0]);
    s.record_answer(true);
    assert_eq!(s.attempted, 13);
    assert_eq!(s.correct, 6);
    assert_eq!(s.recent_correct, vec![0, 0, 0, 0, 0, 0, 0, 0, 0, 1]);
    let mut t = stat_with(0, 0, &[]);
    t.record_answer(false);
    assert_eq!(t.recent_correct, vec![0]);
    assert_eq!(t.correct, 0);
}

#[test]
fn lifetime_accuracy_is_none_before_any_answer() {
    assert!(stat_with(0, 0, &[]).lifetime_accuracy().is_none());
    let a = stat_with(8, 6, &[]).lifetime_accuracy().unwrap();
    assert_eq!((a.num, a.den), (6, 8));
}

#[test]
fn planned_questions_counts_stretch_too() {
    let plan = build_batch_plan(&empty_stats(), &empty_diff(), BATCH_SIZE);
    assert_eq!(planned_questions(&plan), BATCH_SIZE);
    let small = vec![
        DomainPlan { domain: 1, tier: 1, count: 4, stretch: Some(StretchPlan { tier: 2, count: 1 }) },
        DomainPlan { domain: 2, tier: 4, count: 2, stretch: None },
    ];
    assert_eq!(planned_questions(&small), 7);
    assert_eq!(planned_questions(&[]), 0);
}

#[test]
fn weaker_domain_never_gets_fewer_questions() {
    let mut stats = empty_stats();
    stats.insert(3, stat_with(20, 4, &[0, 0, 1, 0, 0, 1, 0, 0, 0, 0])); // 20 %
    stats.insert(6, stat_with(20, 18, &[1, 1, 1, 1, 1, 1, 1, 1, 1, 0])); // 90 %
    let diff = empty_diff();
    for target in [9u32, 16, 30, 50, 120] {
        let dist = compute_distribution(&stats, &diff, target);
        assert!(dist[&3] >= dist[&6], "target {target}");
        for d in 1..=8u8 {
            assert!(dist[&3] >= dist[&d], "target {target}, domain {d}");
        }
    }
}

#[test]
fn equal_weights_favour_the_weaker_domain() {
    let mut stats = Stats::new();
    stats.insert(1, stat_with(3_000_000, 1_000_001, &[]));
    for d in 2..=8u8 {
        stats.insert(d, stat_with(6, 2, &[]));
    }
    let dist = compute_distribution(&stats, &empty_diff(), BATCH_SIZE);
    assert_eq!(dist[&1], 6);
    assert_eq!(dist[&2], 7);
    assert_eq!(dist[&3], 7);
    for d in 2..=8u8 {
        assert!(dist[&1] <= dist[&d], "domain {d}");
    }
}
