use chutes_autopilot::models::{
    allowlist_of_models, is_autopilot_alias, is_tee_eligible, parse_model_preference_list,
    routing_mode_for_model, RoutingMode, TeeAllowlist,
};

#[test]
fn parse_model_list_basic() {
    let got = parse_model_preference_list("a,b,c", 8).unwrap();
    assert_eq!(got, vec!["a", "b", "c"]);
}

#[test]
fn parse_model_list_trims_and_dedups_preserving_order() {
    let got = parse_model_preference_list(" a , b , b ", 8).unwrap();
    assert_eq!(got, vec!["a", "b"]);
}

#[test]
fn parse_model_list_discards_empty_items() {
    let got = parse_model_preference_list("a,,b,", 8).unwrap();
    assert_eq!(got, vec!["a", "b"]);
}

#[test]
fn parse_model_list_empty_returns_400_code() {
    let err = parse_model_preference_list(",", 8).unwrap_err();
    assert_eq!(err.code, "invalid_model_list");
}

#[test]
fn parse_model_list_enforces_max_items() {
    let err = parse_model_preference_list("a,b,c", 2).unwrap_err();
    assert_eq!(err.code, "invalid_model_list");
}

#[test]
fn refused_lists_say_why() {
    let empty = parse_model_preference_list(" , \t ,", 8).unwrap_err();
    assert_eq!(empty.message, "model list is empty");
    let long = parse_model_preference_list("a,b,c,d", 3).unwrap_err();
    assert_eq!(long.message, "model list exceeds MAX_MODEL_LIST_ITEMS (3)");
    assert!(parse_model_preference_list("a,b,c", 3).is_ok());
    assert_eq!(
        parse_model_preference_list("a", 0).unwrap_err().message,
        "model list exceeds MAX_MODEL_LIST_ITEMS (0)"
    );
}

#[test]
fn only_ascii_white_space_is_trimmed_from_list_items() {
    let got = parse_model_preference_list("\u{a0}a\u{a0},\x0b, \tb\x0c", 8).unwrap();
    assert_eq!(got, vec!["\u{a0}a\u{a0}", "\x0b", "b"]);
}

#[test]
fn plain_lists_read_back() {
    let items = vec!["one-TEE", "two-TEE", "three"];
    assert_eq!(parse_model_preference_list(&items.join(","), 8).unwrap(), items);
}

#[test]
fn routing_modes() {
    assert_eq!(routing_mode_for_model("chutesai/AutoPilot"), RoutingMode::AutoPilotAlias);
    assert_eq!(routing_mode_for_model("chutesai-routing/AutoPilot"), RoutingMode::AutoPilotAlias);
    assert_eq!(routing_mode_for_model("chutesai/autopilot"), RoutingMode::Direct);
    assert_eq!(routing_mode_for_model("a,b"), RoutingMode::ExplicitModelList);
    assert_eq!(routing_mode_for_model("chutesai/AutoPilot,"), RoutingMode::ExplicitModelList);
    assert_eq!(routing_mode_for_model(""), RoutingMode::Direct);
    assert!(is_autopilot_alias("chutesai/AutoPilot"));
    assert!(!is_autopilot_alias("AutoPilot"));
}

#[test]
fn eligibility_goes_by_the_allowlist_or_the_suffix() {
    let mut allowlist = TeeAllowlist::new();
    assert!(is_tee_eligible("x-TEE", &allowlist));
    assert!(!is_tee_eligible("x-tee", &allowlist));
    assert!(!is_tee_eligible("TEE", &allowlist));
    allowlist.insert("plain".to_string());
    assert!(is_tee_eligible("plain", &allowlist));
    assert!(!is_tee_eligible("x-TEE", &allowlist));
}

#[test]
fn allowlist_holds_every_model_of_the_catalogue() {
    let list = allowlist_of_models(vec![
        "a/M".to_string(),
        "b/N-TEE".to_string(),
        "a/M".to_string(),
    ]);
    assert!(list.contains("a/M"));
    assert!(list.contains("b/N-TEE"));
    assert!(!list.contains("a/m"));
    assert!(!list.contains("c-TEE"));
    assert!(!list.is_empty());
    assert!(allowlist_of_models(Vec::new()).is_empty());
}
