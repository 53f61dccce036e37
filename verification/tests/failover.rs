use axum::http::HeaderMap;
use chutes_autopilot::config::AppConfig;
use chutes_autopilot::error::ErrorReply;
use chutes_autopilot::failover::{
    serialized_body, upstream_body, Attempt, Commit, FirstChunk, HeadOutcome, RetryReason, Step,
};
use chutes_autopilot::ranking::RankedCandidate;
use chutes_autopilot::request::{chat_completions, Route};
use chutes_autopilot::state::AppState;
use serde_json::Value;

type Upstream = fn(&str) -> (HeadOutcome, FirstChunk);

struct Outcome {
    attempts: Vec<String>,
    reasons: Vec<&'static str>,
    end: Result<Commit, ErrorReply>,
}

fn run(state: &mut AppState, route: Route, body: &mut Value, upstream: Upstream) -> Outcome {
    let mut attempts = Vec::new();
    let mut reasons = Vec::new();
    let mut attempt = Attempt::first(route).unwrap_or_else(|e| panic!("{e:?}"));
    loop {
        let sent = upstream_body(body, attempt.model()).unwrap();
        let json: Value = serde_json::from_slice(&sent).unwrap();
        let model = json.get("model").and_then(Value::as_str).unwrap().to_string();
        let (head, first) = upstream(&model);
        attempts.push(model);
        let step = match attempt.on_head(state, head, 20) {
            Step::AwaitFirstChunk(pending) => pending.on_first_chunk(state, first, 21),
            step => step,
        };
        match step {
            Step::Retry(next, reason) => {
                reasons.push(reason.as_str());
                attempt = next;
            }
            Step::Commit(commit) => return Outcome { attempts, reasons, end: Ok(commit) },
            Step::Fail(e) => return Outcome { attempts, reasons, end: Err(e) },
            Step::AwaitFirstChunk(_) => unreachable!(),
        }
    }
}

fn ask(state: &mut AppState, body: &str, upstream: Upstream) -> Outcome {
    let body = body.as_bytes().to_vec();
    let sent = chat_completions(state, None, None, &HeaderMap::new(), Ok(body), 10);
    let mut request = sent.unwrap_or_else(|e| panic!("{e:?}"));
    run(state, request.route, &mut request.body, upstream)
}

fn route(models: &[&str], key: Option<&str>) -> Route {
    Route {
        candidates: models.iter().map(|m| m.to_string()).collect(),
        add_selected_header: true,
        client_key: key.map(|k| k.to_string()),
    }
}

fn status(code: u16) -> (HeadOutcome, FirstChunk) {
    (HeadOutcome::Status(code), FirstChunk::Arrived)
}

#[test]
fn chat_completions_model_list_failover_on_503() {
    let mut state = AppState::new(AppConfig::default());
    let out = ask(&mut state, r#"{"model":"first-TEE,second-TEE"}"#, |model| {
        status(if model == "first-TEE" { 503 } else { 200 })
    });
    assert_eq!(out.attempts, vec!["first-TEE", "second-TEE"]);
    assert_eq!(out.reasons, vec!["upstream_503"]);
    let commit = out.end.unwrap();
    assert_eq!(commit.status, 200);
    assert_eq!(commit.selected_model(), Some("second-TEE"));
    assert_eq!(commit.attempt_idx, 1);
    assert_eq!(commit.candidates_total, 2);
}

#[test]
fn chat_completions_model_list_failover_on_header_timeout() {
    let mut state = AppState::new(AppConfig::default());
    let out = ask(&mut state, r#"{"model":"slow-TEE,fast-TEE"}"#, |model| {
        if model == "slow-TEE" {
            (HeadOutcome::Timeout, FirstChunk::Arrived)
        } else {
            status(200)
        }
    });
    assert_eq!(out.attempts, vec!["slow-TEE", "fast-TEE"]);
    assert_eq!(out.reasons, vec!["upstream_header_timeout"]);
    assert_eq!(out.end.unwrap().selected_model(), Some("fast-TEE"));
}

#[test]
fn chat_completions_model_list_does_not_retry_on_429() {
    let mut state = AppState::new(AppConfig::default());
    let out = ask(&mut state, r#"{"model":"first-TEE,second-TEE"}"#, |model| {
        status(if model == "first-TEE" { 429 } else { 200 })
    });
    assert_eq!(out.attempts, vec!["first-TEE"]);
    let commit = out.end.unwrap();
    assert_eq!(commit.status, 429);
    assert_eq!(commit.selected_model(), Some("first-TEE"));
}

#[test]
fn chat_completions_model_list_failover_on_first_body_timeout() {
    let mut state = AppState::new(AppConfig::default());
    let out = ask(&mut state, r#"{"model":"stall-TEE,second-TEE"}"#, |model| {
        if model == "stall-TEE" {
            (HeadOutcome::Status(200), FirstChunk::Timeout)
        } else {
            status(200)
        }
    });
    assert_eq!(out.attempts, vec!["stall-TEE", "second-TEE"]);
    assert_eq!(out.reasons, vec!["upstream_first_body_byte_timeout"]);
    assert_eq!(out.end.unwrap().selected_model(), Some("second-TEE"));
}

#[test]
fn chat_completions_model_list_does_not_retry_after_committing_body_bytes() {
    let mut state = AppState::new(AppConfig::default());
    let out = ask(&mut state, r#"{"model":"first-TEE,second-TEE"}"#, |_| status(200));
    assert_eq!(out.attempts, vec!["first-TEE"]);
    assert_eq!(out.end.unwrap().selected_model(), Some("first-TEE"));
}

#[test]
fn bodies_that_end_or_fail_early_are_retried() {
    let mut state = AppState::new(AppConfig::default());
    let out = ask(&mut state, r#"{"model":"a-TEE,b-TEE,c-TEE"}"#, |model| match model {
        "a-TEE" => (HeadOutcome::Status(206), FirstChunk::Ended),
        "b-TEE" => (HeadOutcome::Status(299), FirstChunk::Failed),
        _ => status(200),
    });
    assert_eq!(out.attempts, vec!["a-TEE", "b-TEE", "c-TEE"]);
    assert_eq!(
        out.reasons,
        vec!["upstream_first_body_byte_timeout", "upstream_first_body_byte_error"]
    );
}

#[test]
fn last_model_settles_the_request() {
    let mut state = AppState::new(AppConfig::default());
    let body = r#"{"model":"a-TEE,b-TEE"}"#;
    let timeout = ask(&mut state, body, |_| (HeadOutcome::Timeout, FirstChunk::Arrived));
    assert_eq!(timeout.attempts, vec!["a-TEE", "b-TEE"]);
    let e = timeout.end.err().unwrap();
    assert_eq!(e.status, 504);
    assert_eq!(e.body.error.error_type, "server_error");
    assert_eq!(e.body.error.message, "upstream timeout waiting for response headers");
    assert_eq!(e.body.error.param, None);
    assert_eq!(e.body.error.code.as_deref(), Some("upstream_header_timeout"));

    let failed = ask(&mut state, body, |_| (HeadOutcome::Failed, FirstChunk::Arrived));
    assert_eq!(failed.reasons, vec!["upstream_connect_error"]);
    let e = failed.end.err().unwrap();
    assert_eq!(e.status, 502);
    assert_eq!(e.body.error.message, "upstream request failed");
    assert_eq!(e.body.error.code.as_deref(), Some("upstream_connect_error"));

    let busy = ask(&mut state, body, |_| status(503));
    assert_eq!(busy.end.unwrap().status, 503);
    let silent = ask(&mut state, body, |model| {
        if model == "a-TEE" {
            status(503)
        } else {
            (HeadOutcome::Status(200), FirstChunk::Timeout)
        }
    });
    assert_eq!(silent.end.unwrap().status, 200);
}

#[test]
fn other_statuses_are_handed_on() {
    let mut state = AppState::new(AppConfig::default());
    let body = r#"{"model":"a-TEE,b-TEE"}"#;
    for upstream in [
        (|_: &str| status(400)) as Upstream,
        |_: &str| status(199),
        |_: &str| status(300),
        |_: &str| status(500),
        |_: &str| status(502),
    ] {
        let out = ask(&mut state, body, upstream);
        assert_eq!(out.attempts, vec!["a-TEE"]);
    }
}

#[test]
fn direct_answers_do_not_name_the_model() {
    let mut state = AppState::new(AppConfig::default());
    let out = ask(&mut state, r#"{"model":"direct-TEE"}"#, |_| status(200));
    let commit = out.end.unwrap();
    assert_eq!(commit.selected_model(), None);
    assert_eq!(commit.model, "direct-TEE");
}

#[test]
fn clients_move_along_with_their_request() {
    let mut state = AppState::new(AppConfig::default());
    state.set_sticky_model("k".to_string(), "a".to_string(), 1);
    let mut attempt = Attempt::first(route(&["a", "b", "c"], Some("k"))).ok().unwrap();
    for want in ["b", "c"] {
        attempt = match attempt.on_head(&mut state, HeadOutcome::Failed, 2) {
            Step::Retry(next, RetryReason::ConnectError) => next,
            _ => panic!("no retry"),
        };
        assert_eq!(attempt.model(), want);
        assert_eq!(state.sticky_model("k", 2).as_deref(), Some(want));
    }
    assert_eq!(attempt.attempt_idx(), 2);
    assert_eq!(attempt.candidates_total(), 3);
    match attempt.on_head(&mut state, HeadOutcome::Failed, 3) {
        Step::Fail(e) => assert_eq!(e.status, 502),
        _ => panic!("no failure"),
    }
    assert_eq!(state.sticky_model("k", 3), None);
}

#[test]
fn served_clients_stick_to_their_model() {
    let mut state = AppState::new(AppConfig::default());
    state.runtime.candidates = ["a", "b"]
        .iter()
        .map(|n| RankedCandidate {
            name: n.to_string(),
            active_instance_count: 1,
            utilization_current: 0,
            rate_limit_ratio_5m: 0,
            score: 0,
        })
        .collect();
    let mut body: Value = serde_json::from_str("{}").unwrap();
    let out = run(&mut state, route(&["a", "b"], Some("k")), &mut body, |model| {
        status(if model == "a" { 503 } else { 200 })
    });
    assert_eq!(out.end.unwrap().model, "b");
    assert_eq!(state.sticky_model("k", 30).as_deref(), Some("b"));

    let limited = run(&mut state, route(&["c"], Some("k")), &mut body, |_| status(429));
    assert_eq!(limited.end.unwrap().status, 429);
    assert_eq!(state.sticky_model("k", 30).as_deref(), Some("b"));
}

#[test]
fn routes_without_models_are_refused() {
    let e = Attempt::first(route(&[], None)).err().unwrap();
    assert_eq!(e.status, 503);
    assert_eq!(e.body.error.code.as_deref(), Some("no_candidates"));
}

#[test]
fn only_the_model_changes_in_the_body() {
    let text = r#"{"model":"a,b","messages":[{"role":"user","content":"hé \"x\""}],"n":1.5}"#;
    let mut body: Value = serde_json::from_str(text).unwrap();
    let before = body.clone();
    let first = upstream_body(&mut body, "a").unwrap();
    let second = upstream_body(&mut body, "b\"\n").unwrap();
    let sent: Value = serde_json::from_slice(&second).unwrap();
    assert_eq!(sent.get("model").and_then(Value::as_str), Some("b\"\n"));
    assert_eq!(sent.get("messages"), before.get("messages"));
    assert_eq!(sent.get("n"), before.get("n"));
    assert_eq!(sent.as_object().unwrap().len(), 3);
    let sent: Value = serde_json::from_slice(&first).unwrap();
    assert_eq!(sent.get("model").and_then(Value::as_str), Some("a"));
    assert_eq!(sent.get("messages"), before.get("messages"));
}

#[test]
fn members_with_a_name_of_serde_json_keep_the_model() {
    let mut body: Value = serde_json::from_str("{}").unwrap();
    body.as_object_mut().unwrap().insert(
        "$serde_json::private::RawValue".to_string(),
        Value::String("1".to_string()),
    );
    let sent = upstream_body(&mut body, "m").unwrap();
    let text = String::from_utf8(sent).unwrap();
    assert_eq!(text, r#"{"$serde_json::private::RawValue":"1","model":"m"}"#);
}

#[test]
fn bodies_that_cannot_be_sent_are_refused() {
    let mut body: Value = serde_json::from_str("[1]").unwrap();
    let e = upstream_body(&mut body, "a").unwrap_err();
    assert_eq!(e.status, 400);
    assert_eq!(e.body.error.code.as_deref(), Some("invalid_body"));
    assert_eq!(e.body.error.message, "request body must be a JSON object");
    assert_eq!(body.to_string(), "[1]");

    assert_eq!(serialized_body::<String>(Ok(vec![1, 2])).unwrap(), vec![1, 2]);
    let e = serialized_body(Err("broken")).unwrap_err();
    assert_eq!(e.status, 500);
    assert_eq!(e.body.error.error_type, "server_error");
    assert_eq!(e.body.error.message, "failed to serialize request body");
    assert_eq!(e.body.error.code.as_deref(), Some("serialization_error"));
}
