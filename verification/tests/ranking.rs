use chutes_autopilot::models::TeeAllowlist;
use chutes_autopilot::ranking::{
    rank_candidates, sort_ranked_candidates, RankedCandidate, ScoreInputs, ScoredRecord,
    UtilizationRecord,
};

fn bits(value: f64) -> u64 {
    value.to_bits()
}

fn some(value: f64) -> Option<u64> {
    Some(value.to_bits())
}

fn record(name: &str, active_instance_count: u64, utilization: f64) -> UtilizationRecord {
    UtilizationRecord {
        name: name.to_string(),
        active_instance_count,
        utilization_current: some(utilization),
        utilization_5m: some(utilization),
        utilization_15m: some(utilization),
        utilization_1h: some(utilization),
        rate_limit_ratio_5m: some(0.0),
        rate_limit_ratio_15m: some(0.0),
        rate_limit_ratio_1h: some(0.0),
        scalable: false,
        scale_allowance: some(0.0),
    }
}

fn score(inputs: &ScoreInputs) -> f64 {
    let active = inputs.active_instance_count as f64;
    let util = 0.6 * f64::from_bits(inputs.utilization_5m)
        + 0.3 * f64::from_bits(inputs.utilization_15m)
        + 0.1 * f64::from_bits(inputs.utilization_1h);
    let throttle = f64::from_bits(inputs.rate_limit_ratio_5m)
        .max(0.5 * f64::from_bits(inputs.rate_limit_ratio_15m))
        .max(0.25 * f64::from_bits(inputs.rate_limit_ratio_1h));
    let scale = f64::from_bits(inputs.scale_allowance).min(8.0) * 0.05;
    active * (1.0 - util) + scale - active * throttle * 2.0
}

fn scored(record: UtilizationRecord) -> ScoredRecord {
    let score = bits(score(&record.score_inputs()));
    ScoredRecord { record, score }
}

fn candidate(
    name: &str,
    active_instance_count: u64,
    utilization_current: f64,
    rate_limit_ratio_5m: f64,
    score: f64,
) -> RankedCandidate {
    RankedCandidate {
        name: name.to_string(),
        active_instance_count,
        utilization_current: bits(utilization_current),
        rate_limit_ratio_5m: bits(rate_limit_ratio_5m),
        score: bits(score),
    }
}

fn names(ranked: &[RankedCandidate]) -> Vec<String> {
    ranked.iter().map(|c| c.name.clone()).collect()
}

#[test]
fn rank_candidates_uses_tee_suffix_without_allowlist() {
    let ranked = rank_candidates(
        vec![
            scored(record("model-A-TEE", 1, 0.1)),
            scored(record("model-B", 10, 0.1)),
        ],
        &TeeAllowlist::new(),
    );

    assert_eq!(ranked.len(), 1);
    assert_eq!(ranked[0].name, "model-A-TEE");
}

#[test]
fn rank_candidates_filters_by_tee_allowlist_when_present() {
    let mut allowlist = TeeAllowlist::new();
    allowlist.insert("allow/Model-TEE".to_string());
    allowlist.insert("keep/Model-TEE".to_string());
    let ranked = rank_candidates(
        vec![
            scored(record("allow/Model-TEE", 2, 0.2)),
            scored(record("blocked/Model-TEE", 100, 0.0)),
        ],
        &allowlist,
    );

    assert_eq!(ranked.len(), 1);
    assert_eq!(ranked[0].name, "allow/Model-TEE");
}

#[test]
fn ranked_candidate_score_matches_spec_formula() {
    let record = UtilizationRecord {
        name: "score-TEE".to_string(),
        active_instance_count: 4,
        utilization_current: some(0.5),
        utilization_5m: some(0.5),
        utilization_15m: some(0.25),
        utilization_1h: None,
        rate_limit_ratio_5m: some(0.25),
        rate_limit_ratio_15m: some(0.5),
        rate_limit_ratio_1h: some(1.0),
        scalable: true,
        scale_allowance: some(8.0),
    };

    assert_eq!(
        record.score_inputs(),
        ScoreInputs {
            active_instance_count: 4,
            utilization_5m: bits(0.5),
            utilization_15m: bits(0.25),
            utilization_1h: bits(0.25),
            rate_limit_ratio_5m: bits(0.25),
            rate_limit_ratio_15m: bits(0.5),
            rate_limit_ratio_1h: bits(1.0),
            scale_allowance: bits(8.0),
        }
    );

    let ranked = RankedCandidate::from_scored(&scored(record));
    let expected = 0.8;
    let got = f64::from_bits(ranked.score);
    assert!(
        (got - expected).abs() < 1e-6,
        "got {}, expected {}",
        got,
        expected
    );
}

#[test]
fn sort_ranked_candidates_tiebreaks_by_active_instance_count_desc() {
    let mut ranked = vec![
        candidate("low-active", 1, 0.0, 0.0, 1.0),
        candidate("high-active", 2, 0.0, 0.0, 1.0),
    ];

    sort_ranked_candidates(&mut ranked);
    assert_eq!(ranked[0].name, "high-active");
}

#[test]
fn sort_ranked_candidates_tiebreaks_by_utilization_current_asc() {
    let mut ranked = vec![
        candidate("higher-util", 1, 0.5, 0.0, 1.0),
        candidate("lower-util", 1, 0.25, 0.0, 1.0),
    ];

    sort_ranked_candidates(&mut ranked);
    assert_eq!(ranked[0].name, "lower-util");
}

#[test]
fn sort_ranked_candidates_tiebreaks_by_rate_limit_ratio_5m_asc() {
    let mut ranked = vec![
        candidate("higher-rl", 1, 0.0, 0.5, 1.0),
        candidate("lower-rl", 1, 0.0, 0.25, 1.0),
    ];

    sort_ranked_candidates(&mut ranked);
    assert_eq!(ranked[0].name, "lower-rl");
}

#[test]
fn sort_ranked_candidates_tiebreaks_by_name_asc() {
    let mut ranked = vec![
        candidate("b", 1, 0.0, 0.0, 1.0),
        candidate("a", 1, 0.0, 0.0, 1.0),
    ];

    sort_ranked_candidates(&mut ranked);
    assert_eq!(ranked[0].name, "a");
}

#[test]
fn higher_scores_come_first_and_negative_ones_last() {
    let mut ranked = vec![
        candidate("minus-two", 1, 0.0, 0.0, -2.0),
        candidate("three", 1, 0.0, 0.0, 3.0),
        candidate("minus-one", 1, 0.0, 0.0, -1.0),
        candidate("minus-zero", 1, 0.0, 0.0, -0.0),
        candidate("zero", 1, 0.0, 0.0, 0.0),
        candidate("half", 1, 0.0, 0.0, 0.5),
    ];

    sort_ranked_candidates(&mut ranked);
    assert_eq!(
        names(&ranked),
        vec!["three", "half", "zero", "minus-zero", "minus-one", "minus-two"]
    );
}

#[test]
fn order_agrees_with_total_cmp() {
    let values = [
        f64::NEG_INFINITY,
        -1.5,
        -0.0,
        0.0,
        1.5,
        f64::INFINITY,
        f64::NAN,
        -f64::NAN,
    ];
    for a in values {
        for b in values {
            let mut ranked = vec![
                candidate("a", 1, 0.0, 0.0, a),
                candidate("b", 1, 0.0, 0.0, b),
            ];
            sort_ranked_candidates(&mut ranked);
            let b_first = b.total_cmp(&a).is_gt();
            assert_eq!(ranked[0].name == "b", b_first, "{a} and {b}");
        }
    }
}

#[test]
fn ranking_does_not_depend_on_the_order_of_the_feed() {
    let feed = |order: [usize; 4]| {
        let all = [
            ("a-TEE", 3, 0.5),
            ("b-TEE", 3, 0.5),
            ("c-TEE", 1, 0.0),
            ("d-TEE", 9, 0.25),
        ];
        order
            .iter()
            .map(|i| scored(record(all[*i].0, all[*i].1, all[*i].2)))
            .collect::<Vec<ScoredRecord>>()
    };
    let allowlist = TeeAllowlist::new();
    let forward = rank_candidates(feed([0, 1, 2, 3]), &allowlist);
    let backward = rank_candidates(feed([3, 2, 1, 0]), &allowlist);
    assert_eq!(names(&forward), vec!["d-TEE", "a-TEE", "b-TEE", "c-TEE"]);
    assert_eq!(names(&forward), names(&backward));
}

#[test]
fn private_and_idle_chutes_are_never_ranked() {
    let mut allowlist = TeeAllowlist::new();
    allowlist.insert("[private chute]".to_string());
    allowlist.insert("idle".to_string());
    allowlist.insert("busy".to_string());
    let ranked = rank_candidates(
        vec![
            scored(record("[private chute]", 5, 0.0)),
            scored(record("idle", 0, 0.0)),
            scored(record("busy", 1, 1.0)),
        ],
        &allowlist,
    );
    assert_eq!(names(&ranked), vec!["busy"]);
}

#[test]
fn missing_signals_come_from_the_shorter_window() {
    let mut r = record("x-TEE", 2, 0.0);
    r.utilization_current = None;
    r.utilization_5m = None;
    r.utilization_15m = None;
    r.utilization_1h = None;
    r.rate_limit_ratio_5m = None;
    r.rate_limit_ratio_15m = some(0.5);
    r.rate_limit_ratio_1h = None;
    r.scalable = false;
    r.scale_allowance = some(4.0);
    let inputs = r.score_inputs();
    assert_eq!(inputs.utilization_5m, bits(1.0));
    assert_eq!(inputs.utilization_15m, bits(1.0));
    assert_eq!(inputs.utilization_1h, bits(1.0));
    assert_eq!(inputs.rate_limit_ratio_5m, bits(0.0));
    assert_eq!(inputs.rate_limit_ratio_15m, bits(0.5));
    assert_eq!(inputs.rate_limit_ratio_1h, bits(0.5));
    assert_eq!(inputs.scale_allowance, bits(0.0));

    r.utilization_current = some(0.25);
    r.scalable = true;
    assert_eq!(r.score_inputs().utilization_1h, bits(0.25));
    assert_eq!(r.score_inputs().scale_allowance, bits(4.0));
    assert_eq!(
        RankedCandidate::from_scored(&ScoredRecord { record: r, score: 7 }).utilization_current,
        bits(0.25)
    );
}

#[test]
fn current_utilization_falls_back_to_the_recent_one() {
    let mut r = record("x-TEE", 2, 0.75);
    r.utilization_current = None;
    let c = RankedCandidate::from_scored(&ScoredRecord { record: r, score: 7 });
    assert_eq!(c.utilization_current, bits(0.75));
    assert_eq!(c.score, 7);
    assert_eq!(c.active_instance_count, 2);
}
