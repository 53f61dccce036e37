use chutes_autopilot::config::{
    config_from_env, configure, env_bool, env_string, env_u64, env_usize,
    parse_trusted_proxy_cidrs, trusted_proxy_words, upstream_chat_completions_url, AppConfig,
    ConfigError,
};
use chutes_autopilot::net::IpNet;

const MS: u128 = 1_000_000;

fn vars(pairs: &[(&str, &str)]) -> Vec<(String, String)> {
    pairs
        .iter()
        .map(|(name, value)| (name.to_string(), value.to_string()))
        .collect()
}

#[test]
fn defaults() {
    let cfg = AppConfig::default();
    assert_eq!(cfg.readyz_max_snapshot_age, 20_000 * MS);
    assert_eq!(cfg.max_request_bytes, 1_048_576);
    assert_eq!(cfg.max_model_list_items, 8);
    assert_eq!(cfg.backend_base_url, "https://llm.chutes.ai");
    assert_eq!(cfg.models_url, "https://llm.chutes.ai/v1/models");
    assert_eq!(cfg.models_refresh_ms, 300_000 * MS);
    assert_eq!(cfg.utilization_url, "https://api.chutes.ai/chutes/utilization");
    assert_eq!(cfg.utilization_refresh_ms, 5_000 * MS);
    assert_eq!(cfg.control_plane_timeout, 10_000 * MS);
    assert_eq!(cfg.upstream_connect_timeout, 2_000 * MS);
    assert_eq!(cfg.upstream_header_timeout, 10_000 * MS);
    assert_eq!(cfg.upstream_first_body_byte_timeout, 120_000 * MS);
    assert_eq!(cfg.sticky_ttl, 1_800_000 * MS);
    assert_eq!(cfg.sticky_max_entries, 10_000);
    assert!(!cfg.trust_proxy_headers);
    assert!(cfg.trusted_proxy_cidrs.is_empty());
}

#[test]
fn empty_environment_keeps_the_defaults() {
    let cfg = config_from_env(&Vec::new()).unwrap();
    assert_eq!(cfg.sticky_ttl, AppConfig::default().sticky_ttl);
    assert_eq!(cfg.backend_base_url, "https://llm.chutes.ai");
    assert_eq!(cfg.max_request_bytes, 1_048_576);
}

#[test]
fn every_setting_can_be_set() {
    let cfg = config_from_env(&vars(&[
        ("READYZ_MAX_SNAPSHOT_AGE_MS", "1"),
        ("MAX_REQUEST_BYTES", " 2 "),
        ("MAX_MODEL_LIST_ITEMS", "3"),
        ("BACKEND_BASE_URL", " http://backend "),
        ("MODELS_URL", "http://models"),
        ("MODELS_REFRESH_MS", "4"),
        ("UTILIZATION_URL", "http://utilization"),
        ("UTILIZATION_REFRESH_MS", "5"),
        ("CONTROL_PLANE_TIMEOUT_MS", "6"),
        ("UPSTREAM_CONNECT_TIMEOUT_MS", "7"),
        ("UPSTREAM_HEADER_TIMEOUT_MS", "8"),
        ("UPSTREAM_FIRST_BODY_BYTE_TIMEOUT_MS", "9"),
        ("STICKY_TTL_SECS", "10"),
        ("STICKY_MAX_ENTRIES", "11"),
        ("TRUST_PROXY_HEADERS", "yes"),
        ("TRUSTED_PROXY_CIDRS", "10.0.0.0/8"),
    ]))
    .unwrap();
    assert_eq!(cfg.readyz_max_snapshot_age, MS);
    assert_eq!(cfg.max_request_bytes, 2);
    assert_eq!(cfg.max_model_list_items, 3);
    assert_eq!(cfg.backend_base_url, "http://backend");
    assert_eq!(cfg.models_url, "http://models");
    assert_eq!(cfg.models_refresh_ms, 4 * MS);
    assert_eq!(cfg.utilization_url, "http://utilization");
    assert_eq!(cfg.utilization_refresh_ms, 5 * MS);
    assert_eq!(cfg.control_plane_timeout, 6 * MS);
    assert_eq!(cfg.upstream_connect_timeout, 7 * MS);
    assert_eq!(cfg.upstream_header_timeout, 8 * MS);
    assert_eq!(cfg.upstream_first_body_byte_timeout, 9 * MS);
    assert_eq!(cfg.sticky_ttl, 10_000 * MS);
    assert_eq!(cfg.sticky_max_entries, 11);
    assert!(cfg.trust_proxy_headers);
    assert_eq!(
        cfg.trusted_proxy_cidrs,
        vec![IpNet::V4 { addr: 0x0a00_0000, prefix_len: 8 }]
    );
}

#[test]
fn numbers_that_cannot_be_read_keep_the_default() {
    let cfg = config_from_env(&vars(&[
        ("MAX_REQUEST_BYTES", "-1"),
        ("MAX_MODEL_LIST_ITEMS", ""),
        ("STICKY_TTL_SECS", "18446744073709551616"),
        ("UTILIZATION_REFRESH_MS", "5s"),
    ]))
    .unwrap();
    assert_eq!(cfg.max_request_bytes, 1_048_576);
    assert_eq!(cfg.max_model_list_items, 8);
    assert_eq!(cfg.sticky_ttl, 1_800_000 * MS);
    assert_eq!(cfg.utilization_refresh_ms, 5_000 * MS);
}

#[test]
fn numbers() {
    let env = vars(&[
        ("A", "+7"),
        ("B", "18446744073709551615"),
        ("C", "18446744073709551616"),
        ("D", "+"),
        ("E", "1 2"),
        ("F", "\u{2003}42\n"),
        ("A", "8"),
    ]);
    assert_eq!(env_u64(&env, "A"), Some(7));
    assert_eq!(env_u64(&env, "B"), Some(u64::MAX));
    assert_eq!(env_u64(&env, "C"), None);
    assert_eq!(env_u64(&env, "D"), None);
    assert_eq!(env_u64(&env, "E"), None);
    assert_eq!(env_u64(&env, "F"), Some(42));
    assert_eq!(env_u64(&env, "G"), None);
    assert_eq!(env_usize(&env, "F"), Some(42));
    assert_eq!(env_usize(&env, "D"), None);
}

#[test]
fn strings_and_truth_values() {
    let env = vars(&[("S", "  a b "), ("T", " TRUE"), ("O", "off"), ("B", " "), ("X", " maybe")]);
    assert_eq!(env_string(&env, "S").as_deref(), Some("a b"));
    assert_eq!(env_string(&env, "B").as_deref(), Some(""));
    assert_eq!(env_string(&env, "N"), None);
    assert_eq!(env_bool(&env, "T").unwrap(), Some(true));
    assert_eq!(env_bool(&env, "O").unwrap(), Some(false));
    assert_eq!(env_bool(&env, "B").unwrap(), None);
    assert_eq!(env_bool(&env, "N").unwrap(), None);
    for word in ["1", "true", "yes", "On"] {
        assert_eq!(env_bool(&vars(&[("V", word)]), "V").unwrap(), Some(true));
    }
    for word in ["0", "False", "no", "OFF"] {
        assert_eq!(env_bool(&vars(&[("V", word)]), "V").unwrap(), Some(false));
    }
    match env_bool(&env, "X") {
        Err(ConfigError::InvalidBool { name, raw }) => {
            assert_eq!(name, "X");
            assert_eq!(raw, " maybe");
        }
        other => panic!("{other:?}"),
    }
}

#[test]
fn networks_are_separated_by_commas_and_white_space() {
    assert_eq!(
        trusted_proxy_words(" 10.0.0.0/8,, 192.0.2.0/24\t::1/128,"),
        vec!["10.0.0.0/8", "192.0.2.0/24", "::1/128"]
    );
    assert!(trusted_proxy_words(" , ").is_empty());
    assert_eq!(
        parse_trusted_proxy_cidrs("10.1.2.3/8 ::1/128").unwrap(),
        vec![
            IpNet::V4 { addr: 0x0a01_0203, prefix_len: 8 },
            IpNet::V6 { addr: 1, prefix_len: 128 },
        ]
    );
}

#[test]
fn bad_networks_are_refused_only_where_they_count() {
    let bad = parse_trusted_proxy_cidrs("10.0.0.0/8 10.0.0.1, nonsense").unwrap_err();
    assert_eq!(bad.token, "10.0.0.1");
    assert_eq!(parse_trusted_proxy_cidrs("10.0.0.0/33").unwrap_err().token, "10.0.0.0/33");
    let env = |trust: &str| {
        vars(&[("TRUST_PROXY_HEADERS", trust), ("TRUSTED_PROXY_CIDRS", "nonsense")])
    };
    match config_from_env(&env("true")) {
        Err(ConfigError::InvalidCidr(e)) => assert_eq!(e.token, "nonsense"),
        other => panic!("{other:?}"),
    }
    let cfg = config_from_env(&env("false")).unwrap();
    assert!(cfg.trusted_proxy_cidrs.is_empty());
    assert!(config_from_env(&env("perhaps")).is_err());
}

#[test]
fn given_networks_count_only_where_the_environment_names_some() {
    let nets = || Ok(vec![IpNet::V4 { addr: 1, prefix_len: 32 }]);
    let named = vars(&[("TRUST_PROXY_HEADERS", "1"), ("TRUSTED_PROXY_CIDRS", "")]);
    assert_eq!(configure(&named, nets()).unwrap().trusted_proxy_cidrs.len(), 1);
    let unnamed = vars(&[("TRUST_PROXY_HEADERS", "1")]);
    assert!(configure(&unnamed, nets()).unwrap().trusted_proxy_cidrs.is_empty());
}

#[test]
fn completions_address() {
    let url = |base: &str| {
        let mut cfg = AppConfig::default();
        cfg.backend_base_url = base.to_string();
        upstream_chat_completions_url(&cfg)
    };
    assert_eq!(url("https://x"), "https://x/v1/chat/completions");
    assert_eq!(url("https://x/"), "https://x/v1/chat/completions");
    assert_eq!(url("https://x/api//"), "https://x/api/v1/chat/completions");
    assert_eq!(url("//"), "/v1/chat/completions");
}
