use axum::http::{HeaderMap, HeaderName, HeaderValue};
use chutes_autopilot::headers::{
    copy_upstream_response_headers, filter_upstream_request_headers, is_header_value,
    is_hop_by_hop_header, streaming_response_headers,
};

const HOP_BY_HOP: [&str; 8] = [
    "connection",
    "keep-alive",
    "proxy-authenticate",
    "proxy-authorization",
    "te",
    "trailer",
    "transfer-encoding",
    "upgrade",
];

fn sample() -> HeaderMap {
    let mut headers = HeaderMap::new();
    for name in HOP_BY_HOP {
        headers.insert(HeaderName::from_static(name), HeaderValue::from_static("x"));
    }
    headers.insert("host", HeaderValue::from_static("example.com"));
    headers.insert("content-length", HeaderValue::from_static("12"));
    headers.insert("content-type", HeaderValue::from_static("application/json"));
    headers.append("set-cookie", HeaderValue::from_static("a=1"));
    headers.append("set-cookie", HeaderValue::from_static("b=2"));
    headers
}

fn values(headers: &HeaderMap, name: &str) -> Vec<String> {
    headers
        .get_all(name)
        .iter()
        .map(|v| v.to_str().unwrap().to_string())
        .collect()
}

#[test]
fn hop_by_hop_names() {
    for name in HOP_BY_HOP {
        assert!(is_hop_by_hop_header(name), "{name}");
    }
    assert!(!is_hop_by_hop_header("host"));
    assert!(!is_hop_by_hop_header("connections"));
}

#[test]
fn requests_lose_connection_fields_host_and_length() {
    let out = filter_upstream_request_headers(&sample());
    assert_eq!(out.len(), 3);
    for name in HOP_BY_HOP {
        assert!(!out.contains_key(name), "{name}");
    }
    assert!(!out.contains_key("host"));
    assert!(!out.contains_key("content-length"));
    assert_eq!(values(&out, "content-type"), vec!["application/json"]);
    assert_eq!(values(&out, "set-cookie"), vec!["a=1", "b=2"]);
}

#[test]
fn responses_lose_connection_fields_alone() {
    let out = copy_upstream_response_headers(&sample());
    assert_eq!(out.len(), 5);
    for name in HOP_BY_HOP {
        assert!(!out.contains_key(name), "{name}");
    }
    assert_eq!(values(&out, "host"), vec!["example.com"]);
    assert_eq!(values(&out, "content-length"), vec!["12"]);
    assert_eq!(values(&out, "set-cookie"), vec!["a=1", "b=2"]);
}

#[test]
fn filtering_twice_changes_nothing() {
    let once = filter_upstream_request_headers(&sample());
    assert_eq!(filter_upstream_request_headers(&once), once);
    assert_eq!(filter_upstream_request_headers(&HeaderMap::new()), HeaderMap::new());
}

#[test]
fn selected_model_is_announced() {
    let mut upstream = sample();
    upstream.append("x-chutes-autopilot-selected", HeaderValue::from_static("forged"));
    upstream.append("x-chutes-autopilot-selected", HeaderValue::from_static("twice"));
    let out = streaming_response_headers(&upstream, Some("chosen/Model-TEE")).unwrap();
    assert_eq!(values(&out, "x-chutes-autopilot-selected"), vec!["chosen/Model-TEE"]);
    assert_eq!(values(&out, "content-type"), vec!["application/json"]);
    let plain = streaming_response_headers(&sample(), None).unwrap();
    assert!(!plain.contains_key("x-chutes-autopilot-selected"));
    assert_eq!(plain, copy_upstream_response_headers(&sample()));
}

#[test]
fn models_that_are_no_header_value_are_not_announced() {
    assert!(!is_header_value("bad\nname"));
    assert!(!is_header_value("\u{7f}"));
    assert!(is_header_value("tab\tand caf\u{e9}"));
    assert!(is_header_value(""));
    let out = streaming_response_headers(&sample(), Some("bad\nname")).unwrap();
    assert!(!out.contains_key("x-chutes-autopilot-selected"));
    let wide = streaming_response_headers(&sample(), Some("caf\u{e9}")).unwrap();
    assert_eq!(
        wide.get("x-chutes-autopilot-selected").unwrap().as_bytes(),
        "caf\u{e9}".as_bytes()
    );
}
