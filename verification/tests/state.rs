use chutes_autopilot::config::AppConfig;
use chutes_autopilot::models::TeeAllowlist;
use chutes_autopilot::ranking::RankedCandidate;
use chutes_autopilot::state::{healthz, maybe_set_sticky_model, readyz, AppState};

const SECOND: u128 = 1_000_000_000;

fn candidate(name: &str) -> RankedCandidate {
    RankedCandidate {
        name: name.to_string(),
        active_instance_count: 1,
        utilization_current: 0,
        rate_limit_ratio_5m: 0,
        score: 1.0f64.to_bits(),
    }
}

fn strings(items: &[&str]) -> Vec<String> {
    items.iter().map(|s| s.to_string()).collect()
}

#[test]
fn candidate_snapshot_keeps_last_known_good_on_error() {
    let mut state = AppState::new(AppConfig::default());
    let now = 100 * SECOND;
    let snapshot_at = now - 60 * SECOND;
    state.runtime.candidates = vec![candidate("keep")];
    state.runtime.snapshot_at = Some(snapshot_at);

    state.update_candidate_snapshot(Err("boom"), now);

    assert_eq!(state.runtime.candidates.len(), 1);
    assert_eq!(state.runtime.candidates[0].name, "keep");
    assert_eq!(state.runtime.snapshot_at, Some(snapshot_at));
}

#[test]
fn candidate_snapshot_is_replaced_on_success() {
    let mut state = AppState::new(AppConfig::default());
    state.runtime.candidates = vec![candidate("old")];
    state.update_candidate_snapshot::<String>(Ok(vec![candidate("a"), candidate("b")]), 7);
    assert_eq!(state.candidate_models(), vec!["a", "b"]);
    assert_eq!(state.runtime.snapshot_at, Some(7));
    let readiness = state.readiness();
    assert!(readiness.has_candidates);
    assert_eq!(readiness.snapshot_at, Some(7));
}

#[test]
fn allowlist_keeps_last_known_good_on_error() {
    let mut state = AppState::new(AppConfig::default());
    let mut list = TeeAllowlist::new();
    list.insert("a".to_string());
    state.update_tee_allowlist::<String>(Ok(list));
    assert!(state.tee_allowlist().contains("a"));
    state.update_tee_allowlist(Err("boom"));
    assert!(state.tee_allowlist().contains("a"));
}

#[test]
fn rotate_sticky_model_moves_to_next_candidate() {
    let mut state = AppState::new(AppConfig::default());
    state.set_sticky_model("client-key".to_string(), "first".to_string(), 1);

    let candidates = strings(&["first", "second", "third"]);

    state.rotate_sticky_model("client-key", &candidates, "first", 2);
    assert_eq!(state.sticky_model("client-key", 3), Some("second".to_string()));

    state.rotate_sticky_model("client-key", &candidates, "second", 4);
    assert_eq!(state.sticky_model("client-key", 5), Some("third".to_string()));
}

#[test]
fn rotation_ends_behind_the_last_candidate() {
    let mut state = AppState::new(AppConfig::default());
    let candidates = strings(&["first", "second"]);
    state.set_sticky_model("k".to_string(), "second".to_string(), 1);
    state.rotate_sticky_model("k", &candidates, "first", 2);
    assert_eq!(state.sticky_model("k", 2).as_deref(), Some("second"));
    state.rotate_sticky_model("k", &candidates, "second", 2);
    assert_eq!(state.sticky_model("k", 2), None);
    state.set_sticky_model("k".to_string(), "gone".to_string(), 3);
    state.rotate_sticky_model("k", &candidates, "gone", 3);
    assert_eq!(state.sticky_model("k", 3), None);
    state.rotate_sticky_model("unknown", &candidates, "first", 3);
    assert_eq!(state.runtime.sticky_models.len(), 0);
}

#[test]
fn rotation_counts_as_use() {
    let mut state = AppState::new(AppConfig::default());
    state.config.sticky_ttl = 10;
    state.set_sticky_model("k".to_string(), "a".to_string(), 0);
    state.rotate_sticky_model("k", &strings(&["a", "b"]), "a", 8);
    assert_eq!(state.sticky_model("k", 18).as_deref(), Some("b"));
    assert_eq!(state.sticky_model("k", 19), None);
}

#[test]
fn sticky_map_evicts_oldest_entries_when_over_cap() {
    let mut cfg = AppConfig::default();
    cfg.sticky_max_entries = 2;

    let mut state = AppState::new(cfg);
    let now = 100 * SECOND;

    let table = &mut state.runtime.sticky_models;
    table.insert("old".to_string(), "old-model".to_string(), now - 10 * SECOND);
    table.insert("mid".to_string(), "mid-model".to_string(), now - 5 * SECOND);
    table.insert("new".to_string(), "new-model".to_string(), now);

    let max = state.config.sticky_max_entries;
    AppState::enforce_sticky_cap(&mut state.runtime, max);
    assert_eq!(state.runtime.sticky_models.len(), 2);
    assert!(state.runtime.sticky_models.get("old").is_none());
    assert!(state.runtime.sticky_models.get("mid").is_some());
    assert!(state.runtime.sticky_models.get("new").is_some());
}

#[test]
fn setting_a_model_keeps_the_cap() {
    let mut state = AppState::new(AppConfig::default());
    state.config.sticky_max_entries = 2;
    state.set_sticky_model("a".to_string(), "m1".to_string(), 1);
    state.set_sticky_model("b".to_string(), "m2".to_string(), 2);
    state.set_sticky_model("a".to_string(), "m3".to_string(), 3);
    state.set_sticky_model("c".to_string(), "m4".to_string(), 4);
    assert_eq!(state.sticky_model("a", 4).as_deref(), Some("m3"));
    assert_eq!(state.sticky_model("b", 4), None);
    assert_eq!(state.sticky_model("c", 4).as_deref(), Some("m4"));
    state.config.sticky_max_entries = 0;
    state.set_sticky_model("d".to_string(), "m5".to_string(), 5);
    assert_eq!(state.runtime.sticky_models.len(), 0);
}

#[test]
fn selections_expire_after_the_time_to_live() {
    let mut state = AppState::new(AppConfig::default());
    state.config.sticky_ttl = 10;
    state.set_sticky_model("k".to_string(), "m".to_string(), 100);
    assert_eq!(state.sticky_model("k", 110).as_deref(), Some("m"));
    assert_eq!(state.sticky_model("k", 111), None);
    assert_eq!(state.runtime.sticky_models.len(), 0);
    state.set_sticky_model("k".to_string(), "m".to_string(), 120);
    state.config.sticky_ttl = 0;
    assert_eq!(state.sticky_model("k", 120), None);
}

#[test]
fn lookups_do_not_renew_a_selection() {
    let mut state = AppState::new(AppConfig::default());
    state.config.sticky_ttl = 10;
    state.set_sticky_model("k".to_string(), "m".to_string(), 0);
    state.set_sticky_model("l".to_string(), "n".to_string(), 5);
    assert_eq!(state.sticky_model("k", 9).as_deref(), Some("m"));
    assert_eq!(state.sticky_model("k", 11), None);
    assert_eq!(state.sticky_model("l", 11).as_deref(), Some("n"));
}

#[test]
fn rotation_adds_no_selection() {
    let mut state = AppState::new(AppConfig::default());
    state.set_sticky_model("k".to_string(), "a".to_string(), 1);
    state.set_sticky_model("l".to_string(), "a".to_string(), 1);
    state.rotate_sticky_model("k", &strings(&["a", "b"]), "a", 2);
    state.rotate_sticky_model("m", &strings(&["a", "b"]), "a", 2);
    assert_eq!(state.runtime.sticky_models.len(), 2);
    assert_eq!(state.sticky_model("l", 2).as_deref(), Some("a"));
}

#[test]
fn cleared_models_are_gone() {
    let mut state = AppState::new(AppConfig::default());
    state.set_sticky_model("k".to_string(), "m".to_string(), 1);
    state.set_sticky_model("l".to_string(), "n".to_string(), 1);
    state.clear_sticky_model("k");
    assert_eq!(state.sticky_model("k", 1), None);
    assert_eq!(state.sticky_model("l", 1).as_deref(), Some("n"));
}

#[test]
fn transient_answers_are_not_remembered() {
    let mut state = AppState::new(AppConfig::default());
    maybe_set_sticky_model(&mut state, Some("k"), 429, "m", 1);
    maybe_set_sticky_model(&mut state, Some("k"), 503, "m", 1);
    maybe_set_sticky_model(&mut state, None, 200, "m", 1);
    assert_eq!(state.runtime.sticky_models.len(), 0);
    maybe_set_sticky_model(&mut state, Some("k"), 500, "m", 1);
    assert_eq!(state.sticky_model("k", 1).as_deref(), Some("m"));
}

#[test]
fn healthz_ok() {
    let reply = healthz();
    assert_eq!(reply.status, 200);
    assert_eq!(reply.body, "ok");
}

#[test]
fn readyz_defaults_to_503() {
    let state = AppState::new(AppConfig::default());
    let e = readyz(&state, 0).unwrap_err();
    assert_eq!(e.status, 503);
    assert_eq!(e.body.error.message, "service not ready: no candidate snapshot");
    assert_eq!(e.body.error.error_type, "not_ready");
    assert_eq!(e.body.error.param, None);
    assert_eq!(e.body.error.code.as_deref(), Some("not_ready"));
}

#[test]
fn readyz_returns_503_without_candidates() {
    let mut state = AppState::new(AppConfig::default());
    state.update_candidate_snapshot::<String>(Ok(Vec::new()), 1);
    let e = readyz(&state, 1).unwrap_err();
    assert_eq!(e.status, 503);
    assert_eq!(e.body.error.message, "service not ready: no eligible candidates");
    assert_eq!(e.body.error.code.as_deref(), Some("not_ready"));
}

#[test]
fn readyz_returns_200_when_snapshot_is_fresh_and_non_empty() {
    let mut state = AppState::new(AppConfig::default());
    state.runtime.candidates = vec![candidate("ready/TEE-Model")];
    state.runtime.snapshot_at = Some(5 * SECOND);
    let reply = readyz(&state, 5 * SECOND).unwrap();
    assert_eq!(reply.status, 200);
    assert_eq!(reply.body, "ready");
    assert!(readyz(&state, 25 * SECOND).is_ok());
    assert!(readyz(&state, 25 * SECOND + 1).is_err());
}

#[test]
fn readyz_returns_503_when_snapshot_is_stale() {
    let mut cfg = AppConfig::default();
    cfg.readyz_max_snapshot_age = 1_000_000;

    let mut state = AppState::new(cfg);
    let now = 10 * SECOND;
    state.runtime.candidates = vec![candidate("stale/TEE-Model")];
    state.runtime.snapshot_at = Some(now - SECOND);
    let e = readyz(&state, now).unwrap_err();
    assert_eq!(e.status, 503);
    assert_eq!(e.body.error.code.as_deref(), Some("stale_snapshot"));
    assert_eq!(e.body.error.message, "service not ready: candidate snapshot is stale");
}
