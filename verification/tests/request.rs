use axum::http::{HeaderMap, HeaderValue};
use chutes_autopilot::client::derive_sticky_key;
use chutes_autopilot::config::AppConfig;
use chutes_autopilot::error::{openai_error_response, ErrorReply};
use chutes_autopilot::models::{allowlist_of_models, TeeAllowlist};
use chutes_autopilot::net::{ClientAddr, IpAddress};
use chutes_autopilot::ranking::RankedCandidate;
use chutes_autopilot::request::{
    accept_body, candidates_for_model, chat_completions, prefer_sticky_model, read_request,
    refuse_ineligible, refuse_unknown_model, request_model, route_request, BodyError, ProxyRequest,
};
use chutes_autopilot::state::AppState;
use serde_json::Value;

fn candidate(name: &str) -> RankedCandidate {
    RankedCandidate {
        name: name.to_string(),
        active_instance_count: 1,
        utilization_current: 0,
        rate_limit_ratio_5m: 0,
        score: 0,
    }
}

fn strings(items: &[&str]) -> Vec<String> {
    items.iter().map(|s| s.to_string()).collect()
}

fn ranked(names: &[&str]) -> AppState {
    let mut state = AppState::new(AppConfig::default());
    state.runtime.candidates = names.iter().map(|n| candidate(n)).collect();
    state
}

fn bearer(value: &'static str) -> HeaderMap {
    let mut headers = HeaderMap::new();
    headers.insert("authorization", HeaderValue::from_static(value));
    headers
}

fn send(state: &mut AppState, headers: &HeaderMap, body: &str) -> Result<ProxyRequest, ErrorReply> {
    chat_completions(state, None, None, headers, Ok(body.as_bytes().to_vec()), 10)
}

fn refused(state: &mut AppState, body: &str) -> ErrorReply {
    match send(state, &HeaderMap::new(), body) {
        Ok(_) => panic!("{body} was sent on"),
        Err(e) => e,
    }
}

fn says(e: &ErrorReply, status: u16, kind: &str, param: Option<&str>, code: &str) {
    assert_eq!(e.status, status);
    assert_eq!(e.body.error.error_type, kind);
    assert_eq!(e.body.error.param.as_deref(), param);
    assert_eq!(e.body.error.code.as_deref(), Some(code));
}

#[test]
fn chat_completions_prefers_sticky_model_for_autopilot() {
    let mut state = ranked(&["first/TEE-Model", "second/TEE-Model"]);
    let headers = bearer("Bearer sticky-api-token");
    let key = derive_sticky_key(&state.config, &headers, None, None).unwrap();
    state.set_sticky_model(key.clone(), "second/TEE-Model".to_string(), 5);

    let sent = send(&mut state, &headers, r#"{"model":"chutesai/AutoPilot"}"#);
    let route = sent.ok().unwrap().route;
    assert_eq!(route.candidates, vec!["second/TEE-Model", "first/TEE-Model"]);
    assert!(route.add_selected_header);
    assert_eq!(route.client_key, Some(key));
}

#[test]
fn chat_completions_prefers_fresh_candidate_when_sticky_is_not_valid() {
    let mut state = ranked(&["only/TEE-Model"]);
    let headers = bearer("Bearer stale-sticky-key");
    let key = derive_sticky_key(&state.config, &headers, None, None).unwrap();
    state.set_sticky_model(key.clone(), "missing/TEE-Model".to_string(), 5);

    let sent = send(&mut state, &headers, r#"{"model":"chutesai/AutoPilot"}"#);
    assert_eq!(sent.ok().unwrap().route.candidates, vec!["only/TEE-Model"]);
    assert_eq!(state.sticky_model(&key, 10), None);
}

#[test]
fn chat_completions_allows_autopilot_alias_without_tee_suffix_when_ranked_model_exists() {
    let mut state = ranked(&["chosen/TEE-Model", "fallback/TEE-Model"]);
    let sent = send(&mut state, &HeaderMap::new(), r#"{"model":"chutesai/AutoPilot"}"#);
    let route = sent.ok().unwrap().route;
    assert_eq!(route.candidates, vec!["chosen/TEE-Model", "fallback/TEE-Model"]);
    assert!(route.add_selected_header);
    assert_eq!(route.client_key, None);
}

#[test]
fn chat_completions_direct_mode_proxies_upstream_without_selected_header() {
    let mut state = AppState::new(AppConfig::default());
    let sent = send(&mut state, &bearer("Bearer t"), r#"{"model":"direct-TEE"}"#);
    let request = sent.ok().unwrap();
    assert_eq!(request.route.candidates, vec!["direct-TEE"]);
    assert!(!request.route.add_selected_header);
    assert_eq!(request.route.client_key, None);
    assert_eq!(request.body.get("model").and_then(Value::as_str), Some("direct-TEE"));
}

#[test]
fn chat_completions_returns_openai_error_shape() {
    let mut state = AppState::new(AppConfig::default());
    let e = refused(&mut state, r#"{"model":"chutesai/AutoPilot"}"#);
    says(&e, 503, "server_error", Some("model"), "no_candidates");
    assert_eq!(e.body.error.message, "no eligible candidates available");
}

#[test]
fn chat_completions_rejects_model_list_items_not_in_allowlist_when_present() {
    let mut state = AppState::new(AppConfig::default());
    let mut list = TeeAllowlist::new();
    list.insert("allowed/TEE-Model".to_string());
    list.insert("other/TEE-Model".to_string());
    state.runtime.tee_allowlist = list;
    let e = refused(&mut state, r#"{"model":"allowed/TEE-Model,missing/TEE-Model"}"#);
    says(&e, 400, "invalid_request_error", Some("model"), "model_not_tee");
    assert_eq!(
        e.body.error.message,
        "model list contains non-TEE model(s): missing/TEE-Model"
    );
    let ok = send(
        &mut state,
        &HeaderMap::new(),
        r#"{"model":"other/TEE-Model, allowed/TEE-Model"}"#,
    );
    assert_eq!(
        ok.ok().unwrap().route.candidates,
        vec!["other/TEE-Model", "allowed/TEE-Model"]
    );
}

#[test]
fn chat_completions_invalid_model_list_returns_400_openai_shape() {
    let mut state = AppState::new(AppConfig::default());
    let e = refused(&mut state, r#"{"model":","}"#);
    says(&e, 400, "invalid_request_error", Some("model"), "invalid_model_list");
    assert_eq!(e.body.error.message, "model list is empty");
    state.config.max_model_list_items = 1;
    let long = refused(&mut state, r#"{"model":"a-TEE,b-TEE"}"#);
    says(&long, 400, "invalid_request_error", Some("model"), "invalid_model_list");
    assert_eq!(
        long.body.error.message,
        "model list exceeds MAX_MODEL_LIST_ITEMS (1)"
    );
}

#[test]
fn chat_completions_rejects_non_tee_items_in_model_list() {
    let mut state = AppState::new(AppConfig::default());
    let e = refused(&mut state, r#"{"model":"a-TEE,b"}"#);
    says(&e, 400, "invalid_request_error", Some("model"), "model_not_tee");
    assert_eq!(e.body.error.message, "model list contains non-TEE model(s): b");
    let two = refused(&mut state, r#"{"model":"b,a-TEE,c"}"#);
    assert_eq!(two.body.error.message, "model list contains non-TEE model(s): b, c");
}

#[test]
fn chat_completions_rejects_single_non_tee_model() {
    let mut state = AppState::new(AppConfig::default());
    let e = refused(&mut state, r#"{"model":"moonshotai/Kimi-K2.5"}"#);
    says(&e, 400, "invalid_request_error", Some("model"), "model_not_tee");
    assert_eq!(e.body.error.message, "model is not TEE-eligible");
    let listed = refused(&mut state, r#"{"model":"moonshotai/Kimi-K2.5,"}"#);
    assert_eq!(listed.body.error.message, "model is not TEE-eligible");
}

#[test]
fn chat_completions_rejects_unknown_direct_model_when_allowlist_is_present() {
    let mut state = AppState::new(AppConfig::default());
    state.update_tee_allowlist::<String>(Ok(allowlist_of_models(strings(&["allowed/TEE-Model"]))));
    let e = refused(&mut state, r#"{"model":"typo/TEE-Model"}"#);
    says(&e, 400, "invalid_request_error", Some("model"), "unknown_model");
    assert_eq!(e.body.error.message, "unknown model: typo/TEE-Model");
    let suffixed = refused(&mut state, r#"{"model":"other-TEE"}"#);
    says(&suffixed, 400, "invalid_request_error", Some("model"), "unknown_model");
    let listed = refused(&mut state, r#"{"model":"typo/TEE-Model,"}"#);
    says(&listed, 400, "invalid_request_error", Some("model"), "model_not_tee");
    let sent = send(&mut state, &HeaderMap::new(), r#"{"model":"allowed/TEE-Model"}"#);
    assert_eq!(sent.ok().unwrap().route.candidates, vec!["allowed/TEE-Model"]);
}

#[test]
fn unknown_models_are_named() {
    let e = refuse_unknown_model("x");
    says(&e, 400, "invalid_request_error", Some("model"), "unknown_model");
    assert_eq!(e.body.error.message, "unknown model: x");
}

#[test]
fn chat_completions_rejects_body_over_max_request_bytes_with_openai_shape() {
    let mut cfg = AppConfig::default();
    cfg.max_request_bytes = 32;
    let mut state = AppState::new(cfg);
    for body in [Ok(vec![b'a'; 128]), Ok(vec![b'a'; 33]), Err(BodyError::TooLarge)] {
        let e = chat_completions(&mut state, None, None, &HeaderMap::new(), body, 10)
            .err()
            .unwrap();
        says(&e, 413, "invalid_request_error", None, "request_too_large");
        assert_eq!(e.body.error.message, "request body too large");
    }
    let e = refused(&mut state, &"a".repeat(32));
    says(&e, 400, "invalid_request_error", None, "invalid_json");
}

#[test]
fn unusable_bodies_are_refused() {
    let mut state = AppState::new(AppConfig::default());
    let unread = chat_completions(
        &mut state,
        None,
        None,
        &HeaderMap::new(),
        Err(BodyError::Unreadable),
        10,
    )
    .err()
    .unwrap();
    says(&unread, 400, "invalid_request_error", None, "invalid_body");
    assert_eq!(unread.body.error.message, "failed to read request body");

    for body in ["", "{", "{\"model\":\"a-TEE\"} x", "\u{fffd}"] {
        let e = refused(&mut state, body);
        says(&e, 400, "invalid_request_error", None, "invalid_json");
        assert_eq!(e.body.error.message, "invalid JSON body");
    }
    for body in ["[]", "\"a-TEE\"", "null", "1"] {
        let e = refused(&mut state, body);
        says(&e, 400, "invalid_request_error", None, "invalid_body");
        assert_eq!(e.body.error.message, "request body must be a JSON object");
    }
    for body in ["{}", r#"{"model":1}"#, r#"{"model":null}"#, r#"{"Model":"a-TEE"}"#] {
        let e = refused(&mut state, body);
        says(&e, 400, "invalid_request_error", Some("model"), "missing_model");
        assert_eq!(e.body.error.message, "missing required field: model");
    }
}

#[test]
fn bodies_are_read_for_their_model() {
    let request = read_request(br#"{"model":"a","stream":true}"#).ok().unwrap();
    assert_eq!(request.model, "a");
    assert_eq!(request.body.get("stream"), Some(&Value::Bool(true)));
    assert_eq!(request_model(&request.body).unwrap(), "a");
    let accepted = accept_body::<String>(Ok(request.body)).ok().unwrap();
    assert_eq!(accepted.model, "a");
    let e = accept_body(Err("no JSON")).err().unwrap();
    says(&e, 400, "invalid_request_error", None, "invalid_json");
}

#[test]
fn requests_are_keyed_by_address_without_a_token() {
    let mut state = ranked(&["a", "b"]);
    let peer = ClientAddr { ip: IpAddress::V4(1), text: "0.0.0.1".to_string() };
    state.set_sticky_model("ip:0.0.0.1".to_string(), "b".to_string(), 5);
    let sent = chat_completions(
        &mut state,
        None,
        Some(&peer),
        &HeaderMap::new(),
        Ok(br#"{"model":"chutesai-routing/AutoPilot"}"#.to_vec()),
        10,
    );
    let route = sent.ok().unwrap().route;
    assert_eq!(route.client_key.as_deref(), Some("ip:0.0.0.1"));
    assert_eq!(route.candidates, vec!["b", "a"]);
}

#[test]
fn refused_requests_leave_selections_alone() {
    let mut state = AppState::new(AppConfig::default());
    let headers = bearer("Bearer t");
    let key = derive_sticky_key(&state.config, &headers, None, None).unwrap();
    state.set_sticky_model(key.clone(), "x-TEE".to_string(), 5);
    assert!(send(&mut state, &headers, r#"{"model":"a-TEE,b"}"#).is_err());
    assert_eq!(state.sticky_model(&key, 10).as_deref(), Some("x-TEE"));
    assert!(send(&mut state, &headers, r#"{"model":"a-TEE"}"#).is_ok());
    assert_eq!(state.sticky_model(&key, 10).as_deref(), Some("x-TEE"));
    assert!(send(&mut state, &headers, r#"{"model":"a-TEE,b-TEE"}"#).is_ok());
    assert_eq!(state.sticky_model(&key, 10), None);
}

#[test]
fn preference_keeps_the_order_of_the_others() {
    let mut state = AppState::new(AppConfig::default());
    state.set_sticky_model("k".to_string(), "c".to_string(), 1);
    let got = prefer_sticky_model(&mut state, "k", strings(&["a", "b", "c", "d"]), 1);
    assert_eq!(got, vec!["c", "a", "b", "d"]);
    let other = prefer_sticky_model(&mut state, "l", strings(&["a", "b"]), 1);
    assert_eq!(other, vec!["a", "b"]);
}

#[test]
fn routes_on_plain_values() {
    let mut state = ranked(&["a", "b"]);
    let route = route_request(&mut state, "x-TEE", Some("k".to_string()), 1).ok().unwrap();
    assert_eq!(route.client_key, None);
    let route = route_request(&mut state, "x-TEE,", Some("k".to_string()), 1).ok().unwrap();
    assert_eq!(route.candidates, vec!["x-TEE"]);
    assert_eq!(route.client_key.as_deref(), Some("k"));
    assert!(route.add_selected_header);
    assert_eq!(candidates_for_model(&state, "chutesai/AutoPilot").unwrap(), vec!["a", "b"]);
    assert!(candidates_for_model(&state, "chutesai/AutoPilot,x-TEE").is_err());
}

#[test]
fn eligible_models_are_not_refused() {
    let list = TeeAllowlist::new();
    assert!(refuse_ineligible(&strings(&["a-TEE", "b-TEE"]), &list).is_none());
    assert!(refuse_ineligible(&Vec::new(), &list).is_none());
    assert!(refuse_ineligible(&strings(&["a"]), &list).is_some());
}

#[test]
fn error_answers_hold_what_they_are_given() {
    let e = openai_error_response(418, "kind", "text", Some("p"), None);
    assert_eq!(e.status, 418);
    assert_eq!(e.body.error.error_type, "kind");
    assert_eq!(e.body.error.message, "text");
    assert_eq!(e.body.error.param.as_deref(), Some("p"));
    assert_eq!(e.body.error.code, None);
}
