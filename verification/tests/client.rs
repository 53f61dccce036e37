use std::collections::hash_map::DefaultHasher;
use std::hash::{Hash, Hasher};

use axum::http::{HeaderMap, HeaderValue};
use chutes_autopilot::client::{
    address_key, derive_sticky_key, is_trusted_proxy, leftmost_address,
    parse_leftmost_x_forwarded_for, requester_ip_for_stickiness, sticky_key, token_key, token_of,
};
use chutes_autopilot::config::{parse_trusted_proxy_cidrs, AppConfig};
use chutes_autopilot::net::{ClientAddr, IpAddress};

fn v4(a: u8, b: u8, c: u8, d: u8) -> ClientAddr {
    ClientAddr {
        ip: IpAddress::V4(u32::from_be_bytes([a, b, c, d])),
        text: format!("{a}.{b}.{c}.{d}"),
    }
}

fn forwarded(value: &'static str) -> HeaderMap {
    let mut headers = HeaderMap::new();
    headers.insert("x-forwarded-for", HeaderValue::from_static(value));
    headers
}

fn authorized(value: &'static str) -> HeaderMap {
    let mut headers = HeaderMap::new();
    headers.insert("authorization", HeaderValue::from_static(value));
    headers
}

fn trusting(cidrs: &str) -> AppConfig {
    let mut cfg = AppConfig::default();
    cfg.trust_proxy_headers = true;
    cfg.trusted_proxy_cidrs = parse_trusted_proxy_cidrs(cidrs).unwrap();
    cfg
}

#[test]
fn derive_sticky_key_ignores_xff_by_default() {
    let cfg = AppConfig::default();
    let headers = forwarded("198.51.100.7, 203.0.113.10");
    assert_eq!(parse_leftmost_x_forwarded_for(&headers).as_deref(), Some("198.51.100.7"));
    let first = v4(198, 51, 100, 7);
    let peer = v4(203, 0, 113, 10);

    let got = derive_sticky_key(&cfg, &headers, Some(&first), Some(&peer)).unwrap();
    assert_eq!(got, "ip:203.0.113.10");
}

#[test]
fn derive_sticky_key_does_not_use_xff_when_peer_is_not_trusted() {
    let cfg = trusting("192.0.2.0/24");
    let headers = forwarded("198.51.100.7");
    assert_eq!(parse_leftmost_x_forwarded_for(&headers).as_deref(), Some("198.51.100.7"));
    let first = v4(198, 51, 100, 7);
    let peer = v4(203, 0, 113, 10);

    let got = derive_sticky_key(&cfg, &headers, Some(&first), Some(&peer)).unwrap();
    assert_eq!(got, "ip:203.0.113.10");
}

#[test]
fn derive_sticky_key_uses_xff_when_peer_is_trusted() {
    let cfg = trusting("203.0.113.0/24");
    let headers = forwarded("198.51.100.7, 203.0.113.10");
    assert_eq!(parse_leftmost_x_forwarded_for(&headers).as_deref(), Some("198.51.100.7"));
    let first = v4(198, 51, 100, 7);
    let peer = v4(203, 0, 113, 10);

    let got = derive_sticky_key(&cfg, &headers, Some(&first), Some(&peer)).unwrap();
    assert_eq!(got, "ip:198.51.100.7");
}

#[test]
fn derive_sticky_key_parses_xff_socketaddr_when_peer_is_trusted() {
    let cfg = trusting("203.0.113.0/24");
    let headers = forwarded("198.51.100.7:1234, 203.0.113.10");
    assert_eq!(parse_leftmost_x_forwarded_for(&headers).as_deref(), Some("198.51.100.7:1234"));
    let first = v4(198, 51, 100, 7);
    let peer = v4(203, 0, 113, 10);

    let got = derive_sticky_key(&cfg, &headers, Some(&first), Some(&peer)).unwrap();
    assert_eq!(got, "ip:198.51.100.7");
}

#[test]
fn peer_counts_where_nothing_was_forwarded() {
    let cfg = trusting("203.0.113.0/24");
    let peer = v4(203, 0, 113, 10);
    let got = requester_ip_for_stickiness(&cfg, None, Some(&peer)).unwrap();
    assert_eq!(got.text, "203.0.113.10");
    let first = v4(198, 51, 100, 7);
    assert!(requester_ip_for_stickiness(&cfg, Some(&first), None).is_none());
    assert!(derive_sticky_key(&cfg, &HeaderMap::new(), Some(&first), None).is_none());
}

#[test]
fn tokens_come_before_addresses() {
    let cfg = AppConfig::default();
    let here = v4(192, 0, 2, 1);
    let there = v4(192, 0, 2, 2);
    let headers = authorized("Bearer secret");
    let a = derive_sticky_key(&cfg, &headers, None, Some(&here)).unwrap();
    let b = derive_sticky_key(&cfg, &headers, None, Some(&there)).unwrap();
    assert_eq!(a, b);
    assert!(a.starts_with("auth:"));
    assert_eq!(a.len(), 21);
    let blank = authorized("Bearer   ");
    assert_eq!(
        derive_sticky_key(&cfg, &blank, None, Some(&here)).unwrap(),
        "ip:192.0.2.1"
    );
}

#[test]
fn token_keys_are_the_hash_of_the_token() {
    let mut hasher = DefaultHasher::new();
    "secret".hash(&mut hasher);
    let want = format!("auth:{:016x}", hasher.finish());
    assert_eq!(sticky_key(Some("Bearer secret"), None), Some(want.clone()));
    assert_eq!(sticky_key(Some("secret"), None), Some(want.clone()));
    assert_ne!(sticky_key(Some("Secret"), None), Some(want));
}

#[test]
fn keys_are_padded_hexadecimal() {
    assert_eq!(token_key(0), "auth:0000000000000000");
    assert_eq!(token_key(0x0123_4567_89ab_cdef), "auth:0123456789abcdef");
    assert_eq!(token_key(u64::MAX), "auth:ffffffffffffffff");
    assert_eq!(address_key(&v4(10, 0, 0, 1)), "ip:10.0.0.1");
}

#[test]
fn bearer_is_taken_off_the_token() {
    assert_eq!(token_of("Bearer abc"), "abc");
    assert_eq!(token_of("  Bearer\tabc  "), "abc");
    assert_eq!(token_of("Bearerabc"), "abc");
    assert_eq!(token_of("bearer abc"), "bearer abc");
    assert_eq!(token_of(" abc "), "abc");
    assert_eq!(token_of("Bearer"), "");
    assert_eq!(token_of("\u{2003}abc\u{3000}"), "abc");
}

#[test]
fn leftmost_forwarded_address() {
    assert_eq!(leftmost_address(" 1.2.3.4 , 5.6.7.8").as_deref(), Some("1.2.3.4"));
    assert_eq!(leftmost_address("1.2.3.4").as_deref(), Some("1.2.3.4"));
    assert_eq!(leftmost_address(",5.6.7.8"), None);
    assert_eq!(leftmost_address("  "), None);
    assert_eq!(parse_leftmost_x_forwarded_for(&HeaderMap::new()), None);
}

#[test]
fn only_the_first_forwarding_field_counts() {
    let mut headers = forwarded("1.2.3.4");
    headers.append("x-forwarded-for", HeaderValue::from_static("5.6.7.8"));
    assert_eq!(parse_leftmost_x_forwarded_for(&headers).as_deref(), Some("1.2.3.4"));
    let mut unreadable = HeaderMap::new();
    unreadable.insert("x-forwarded-for", HeaderValue::from_bytes(b"1.2.3.4\xff").unwrap());
    assert_eq!(parse_leftmost_x_forwarded_for(&unreadable), None);
}

#[test]
fn trusted_networks() {
    let nets = parse_trusted_proxy_cidrs("10.0.0.0/8, 192.0.2.128/25 2001:db8::/32").unwrap();
    let ip = |a, b, c, d| IpAddress::V4(u32::from_be_bytes([a, b, c, d]));
    assert!(is_trusted_proxy(ip(10, 255, 0, 1), &nets));
    assert!(!is_trusted_proxy(ip(11, 0, 0, 1), &nets));
    assert!(is_trusted_proxy(ip(192, 0, 2, 128), &nets));
    assert!(!is_trusted_proxy(ip(192, 0, 2, 127), &nets));
    let six = 0x2001_0db8_0000_0000_0000_0000_0000_0001u128;
    assert!(is_trusted_proxy(IpAddress::V6(six), &nets));
    assert!(!is_trusted_proxy(IpAddress::V6(1), &nets));
    assert!(!is_trusted_proxy(ip(10, 0, 0, 1), &Vec::new()));
}

#[test]
fn networks_of_all_and_of_one_address() {
    let all = parse_trusted_proxy_cidrs("0.0.0.0/0 ::/0").unwrap();
    assert!(is_trusted_proxy(IpAddress::V4(u32::MAX), &all));
    assert!(is_trusted_proxy(IpAddress::V6(u128::MAX), &all));
    let one = parse_trusted_proxy_cidrs("192.0.2.1/32,2001:db8::1/128").unwrap();
    assert!(is_trusted_proxy(IpAddress::V4(0xc000_0201), &one));
    assert!(!is_trusted_proxy(IpAddress::V4(0xc000_0200), &one));
    let six = 0x2001_0db8_0000_0000_0000_0000_0000_0001u128;
    assert!(is_trusted_proxy(IpAddress::V6(six), &one));
    assert!(!is_trusted_proxy(IpAddress::V6(six + 1), &one));
    let host = parse_trusted_proxy_cidrs("192.0.2.99/24").unwrap();
    assert!(is_trusted_proxy(IpAddress::V4(0xc000_0201), &host));
}
