//! Which client a request comes from: the key under which the gateway remembers
//! the model that served it.

use std::collections::hash_map::DefaultHasher;
use std::hash::Hasher;

use axum::http::{HeaderMap, HeaderValue};
use vstd::prelude::*;
use vstd::std_specs::hash::DefaultHasherAdditionalSpecFns;
use vstd::utf8::{encode_utf8, encode_utf8_decode_utf8};

use crate::config::AppConfig;
use crate::error::opt_str;
use crate::headers::{field_text, header_text, header_values};
use crate::net::{in_network, ClientAddr, IpAddress, IpNet};
use crate::text::{
    before_first, has_prefix, hex, hex_char, hex_text, opt_text, strip_prefix, text_before, trim,
    trim_is_idempotent, trim_start, trim_takes_only_the_ends, trimmed, white_space, Blank,
};

verus! {

/// The first address that a list of forwarding addresses names, if it is not empty.
pub open spec fn leftmost_item(raw: Seq<char>) -> Option<Seq<char>> {
    let first = trim(before_first(raw, ','), Blank::Unicode);
    if first.len() == 0 {
        None
    } else {
        Some(first)
    }
}

/// The text of the first address of a list of forwarding addresses.
pub fn leftmost_address(raw: &str) -> (r: Option<String>)
    ensures
        opt_text(r) == leftmost_item(raw@),
{
    let first = trimmed(text_before(raw, ',').as_str());
    if first.as_str().is_empty() {
        None
    } else {
        Some(first)
    }
}

/// What the request says of the address that it was first sent from, as text.
pub fn parse_leftmost_x_forwarded_for(headers: &HeaderMap<HeaderValue>) -> (r: Option<String>)
    ensures
        opt_text(r) == (match field_text(header_values(*headers), "x-forwarded-for"@) {
            Some(raw) => leftmost_item(raw),
            None => None,
        }),
{
    proof {
        reveal_strlit("x-forwarded-for");
    }
    match header_text(headers, "x-forwarded-for") {
        Some(raw) => leftmost_address(raw.as_str()),
        None => None,
    }
}

/// Whether an address is in one of the networks.
pub open spec fn in_any_network(ip: IpAddress, nets: Seq<IpNet>) -> bool {
    exists|i: int| 0 <= i < nets.len() && in_network(ip, #[trigger] nets[i])
}

/// Whether a peer is a proxy whose word on the client's address is taken.
pub fn is_trusted_proxy(peer_ip: IpAddress, trusted: &Vec<IpNet>) -> (r: bool)
    ensures
        r == in_any_network(peer_ip, trusted@),
{
    let mut i: usize = 0;
    while i < trusted.len()
        invariant
            i <= trusted@.len(),
            forall|j: int| 0 <= j < i ==> !in_network(peer_ip, #[trigger] trusted@[j]),
        decreases trusted@.len() - i,
    {
        if trusted[i].contains(&peer_ip) {
            return true;
        }
        i += 1;
    }
    false
}

/// The address that a request counts as coming from. The peer's word on a
/// forwarded address is taken only where the settings say so and the peer is a
/// trusted proxy; without a peer there is no address.
pub open spec fn requester(
    config: AppConfig,
    forwarded: Option<ClientAddr>,
    peer: Option<ClientAddr>,
) -> Option<ClientAddr> {
    match peer {
        None => None,
        Some(addr) => if config.trust_proxy_headers && in_any_network(
            addr.ip,
            config.trusted_proxy_cidrs@,
        ) && forwarded is Some {
            forwarded
        } else {
            peer
        },
    }
}

pub open spec fn opt_addr(addr: Option<&ClientAddr>) -> Option<ClientAddr> {
    match addr {
        Some(a) => Some(*a),
        None => None,
    }
}

/// The address that a request counts as coming from. `forwarded` is the address
/// that the request says it was first sent from, if it says one.
pub fn requester_ip_for_stickiness<'a>(
    config: &AppConfig,
    forwarded: Option<&'a ClientAddr>,
    peer: Option<&'a ClientAddr>,
) -> (r: Option<&'a ClientAddr>)
    ensures
        opt_addr(r) == requester(*config, opt_addr(forwarded), opt_addr(peer)),
{
    let peer_addr = match peer {
        Some(addr) => addr,
        None => {
            return None;
        },
    };
    if !config.trust_proxy_headers {
        return peer;
    }
    if !is_trusted_proxy(peer_addr.ip, &config.trusted_proxy_cidrs) {
        return peer;
    }
    match forwarded {
        Some(addr) => Some(addr),
        None => peer,
    }
}

/// The token of an authorization field: its text without the word `Bearer` in
/// front and without the white space around it.
pub open spec fn bearer_token(auth: Seq<char>) -> Seq<char> {
    let text = trim(auth, Blank::Unicode);
    if has_prefix(text, "Bearer"@) {
        trim(text.skip("Bearer"@.len() as int), Blank::Unicode)
    } else {
        text
    }
}

/// The token of an authorization field.
pub fn token_of(auth: &str) -> (r: String)
    ensures
        r@ == bearer_token(auth@),
{
    let text = trimmed(auth);
    match strip_prefix(text.as_str(), "Bearer") {
        Some(rest) => trimmed(rest.as_str()),
        None => text,
    }
}

/// The hash of a text: of its bytes and a byte that no text holds.
pub open spec fn text_hash(text: Seq<char>) -> u64 {
    DefaultHasher::spec_finish(seq![encode_utf8(text), seq![0xffu8]])
}

fn hash_text(text: &str) -> (r: u64)
    ensures
        r == text_hash(text@),
{
    let mut hasher = DefaultHasher::new();
    hasher.write(text.as_bytes());
    let end: [u8; 1] = [0xffu8];
    hasher.write(end.as_slice());
    assert(end@ == seq![0xffu8]);
    assert(hasher@ == seq![encode_utf8(text@), seq![0xffu8]]);
    hasher.finish()
}

/// The key of a client that is known by a token with the given hash.
pub open spec fn auth_key(hash: u64) -> Seq<char> {
    "auth:"@ + hex(hash as nat, 16)
}

/// The key of a client that is known by the address it comes from.
pub open spec fn ip_key(address: Seq<char>) -> Seq<char> {
    "ip:"@ + address
}

/// The key of a client that is known by a token with the given hash.
pub fn token_key(hash: u64) -> (r: String)
    ensures
        r@ == auth_key(hash),
{
    let mut key = "auth:".to_owned();
    key.append(hex_text(hash, 16).as_str());
    key
}

/// The key of a client that is known by the address it comes from.
pub fn address_key(addr: &ClientAddr) -> (r: String)
    ensures
        r@ == ip_key(addr.text@),
{
    let mut key = "ip:".to_owned();
    key.append(addr.text.as_str());
    key
}

/// The key of the client: by its token where it has one, and otherwise by its
/// address where that is known.
pub open spec fn client_key(auth: Option<Seq<char>>, from: Option<ClientAddr>) -> Option<
    Seq<char>,
> {
    if auth is Some && bearer_token(auth->0).len() > 0 {
        Some(auth_key(text_hash(bearer_token(auth->0))))
    } else {
        match from {
            Some(addr) => Some(ip_key(addr.text@)),
            None => None,
        }
    }
}

/// The key of the client that sent the given authorization from the given address.
pub fn sticky_key(auth: Option<&str>, from: Option<&ClientAddr>) -> (r: Option<String>)
    ensures
        opt_text(r) == client_key(opt_str(auth), opt_addr(from)),
{
    if let Some(text) = auth {
        let token = token_of(text);
        if !token.as_str().is_empty() {
            return Some(token_key(hash_text(token.as_str())));
        }
    }
    match from {
        Some(addr) => Some(address_key(addr)),
        None => None,
    }
}

/// The key of the client that sent a request. `forwarded` is the address that the
/// request says it was first sent from, `peer` the one that it came in from.
pub fn derive_sticky_key(
    config: &AppConfig,
    headers: &HeaderMap<HeaderValue>,
    forwarded: Option<&ClientAddr>,
    peer: Option<&ClientAddr>,
) -> (r: Option<String>)
    ensures
        opt_text(r) == client_key(
            field_text(header_values(*headers), "authorization"@),
            requester(*config, opt_addr(forwarded), opt_addr(peer)),
        ),
{
    proof {
        reveal_strlit("authorization");
    }
    let from = requester_ip_for_stickiness(config, forwarded, peer);
    match header_text(headers, "authorization") {
        Some(auth) => sticky_key(Some(auth.as_str()), from),
        None => sticky_key(None, from),
    }
}

/// What a request says of the address that it was first sent from makes no
/// difference, unless the settings trust proxies and the peer is one of them.
pub proof fn forwarded_address_needs_a_trusted_proxy(
    config: AppConfig,
    a: Option<ClientAddr>,
    b: Option<ClientAddr>,
    peer: Option<ClientAddr>,
)
    requires
        !config.trust_proxy_headers || (peer matches Some(addr) ==> !in_any_network(
            addr.ip,
            config.trusted_proxy_cidrs@,
        )),
    ensures
        requester(config, a, peer) == requester(config, b, peer),
        requester(config, a, peer) == peer,
{
}

/// A client that sends a token is known by the token alone, wherever it is.
pub proof fn token_decides_alone(
    auth: Seq<char>,
    a: Option<ClientAddr>,
    b: Option<ClientAddr>,
)
    requires
        bearer_token(auth).len() > 0,
    ensures
        client_key(Some(auth), a) == client_key(Some(auth), b),
        client_key(Some(auth), a) is Some,
{
}

/// The word `Bearer` in front of a token makes no difference.
pub proof fn bearer_word_makes_no_difference(token: Seq<char>)
    requires
        token.len() > 0,
        trim(token, Blank::Unicode) == token,
        !has_prefix(token, "Bearer"@),
    ensures
        bearer_token("Bearer "@ + token) == token,
        bearer_token(token) == token,
{
    reveal_strlit("Bearer");
    reveal_strlit("Bearer ");
    let auth = "Bearer "@ + token;
    trim_is_idempotent(token, Blank::Unicode);
    assert(auth[0] == 'B');
    assert(auth.last() == token.last());
    assert(trim(auth, Blank::Unicode) == auth);
    assert(auth.take(6) == "Bearer"@);
    let rest = auth.skip(6);
    assert(rest[0] == ' ');
    assert(rest.drop_first() == token);
    assert(trim_start(token, Blank::Unicode) == token);
    assert(trim_start(rest, Blank::Unicode) == token);
}

spec fn hex_range(width: nat) -> nat
    decreases width,
{
    if width == 0 {
        1
    } else {
        16 * hex_range((width - 1) as nat)
    }
}

proof fn lemma_hex_injective(a: nat, b: nat, width: nat)
    requires
        a < hex_range(width),
        b < hex_range(width),
        hex(a, width) == hex(b, width),
    ensures
        a == b,
    decreases width,
{
    if width > 0 {
        let less = (width - 1) as nat;
        assert(hex(a, width).drop_last() == hex(a / 16, less));
        assert(hex(b, width).drop_last() == hex(b / 16, less));
        assert(hex(a, width).last() == hex_char(a % 16));
        assert(hex(b, width).last() == hex_char(b % 16));
        lemma_hex_injective(a / 16, b / 16, less);
        assert(a % 16 == b % 16);
    }
}

/// Keys tell clients apart: a key by token is never one by address, tokens with
/// different hashes have different keys, and so have different addresses.
pub proof fn keys_tell_clients_apart(a: u64, b: u64, here: Seq<char>, there: Seq<char>)
    ensures
        auth_key(a) != ip_key(here),
        auth_key(a) == auth_key(b) ==> a == b,
        ip_key(here) == ip_key(there) ==> here == there,
{
    reveal_strlit("auth:");
    reveal_strlit("ip:");
    assert(auth_key(a)[0] == 'a');
    assert(ip_key(here)[0] == 'i');
    if auth_key(a) == auth_key(b) {
        assert(auth_key(a).skip(5) == hex(a as nat, 16));
        assert(auth_key(b).skip(5) == hex(b as nat, 16));
        reveal_with_fuel(hex_range, 17);
        lemma_hex_injective(a as nat, b as nat, 16);
    }
    if ip_key(here) == ip_key(there) {
        assert(ip_key(here).skip(3) == here);
        assert(ip_key(there).skip(3) == there);
    }
}

/// A client that sends a token is known by the hash of the whole token: what is
/// hashed are all bytes of the token and then a byte that no token holds, so that
/// two different tokens are never hashed alike.
pub proof fn tokens_are_hashed_whole(
    auth: Seq<char>,
    from: Option<ClientAddr>,
    a: Seq<char>,
    b: Seq<char>,
)
    ensures
        bearer_token(auth) == a && a.len() > 0 ==> client_key(Some(auth), from) == Some(
            "auth:"@ + hex(
                DefaultHasher::spec_finish(seq![encode_utf8(a), seq![0xffu8]]) as nat,
                16,
            ),
        ),
        text_hash(a) == DefaultHasher::spec_finish(seq![encode_utf8(a), seq![0xffu8]]),
        a != b ==> seq![encode_utf8(a), seq![0xffu8]] != seq![encode_utf8(b), seq![0xffu8]],
        a != b ==> encode_utf8(a).push(0xffu8) != encode_utf8(b).push(0xffu8),
{
    if encode_utf8(a) == encode_utf8(b) {
        encode_utf8_decode_utf8(a);
        encode_utf8_decode_utf8(b);
    }
    let x = seq![encode_utf8(a), seq![0xffu8]];
    let y = seq![encode_utf8(b), seq![0xffu8]];
    assert(x[0] == encode_utf8(a));
    assert(y[0] == encode_utf8(b));
    assert(encode_utf8(a).push(0xffu8).drop_last() == encode_utf8(a));
    assert(encode_utf8(b).push(0xffu8).drop_last() == encode_utf8(b));
}

/// A client that sends no token is known by the whole text of its address, and a
/// client without either is not known.
pub proof fn clients_without_a_token_are_known_by_address(
    auth: Option<Seq<char>>,
    addr: ClientAddr,
)
    requires
        auth matches Some(text) ==> bearer_token(text).len() == 0,
    ensures
        client_key(auth, Some(addr)) == Some("ip:"@ + addr.text@),
        client_key(auth, None) is None,
{
}

/// An authorization field without the white space around it is its token, or the
/// word `Bearer`, white space and the token. The token has no white space around it.
pub proof fn tokens_stand_behind_the_word(auth: Seq<char>) -> (gap: int)
    ensures
        ({
            let text = trim(auth, Blank::Unicode);
            let token = bearer_token(auth);
            &&& 0 <= gap <= text.len()
            &&& text.len() >= 6 && text.take(6) == "Bearer"@ ==> gap >= 6 && token == text.skip(gap)
                && forall|i: int| 6 <= i < gap ==> white_space(#[trigger] text[i])
            &&& !(text.len() >= 6 && text.take(6) == "Bearer"@) ==> token == text
            &&& token.len() > 0 ==> !white_space(token[0]) && !white_space(token.last())
        }),
{
    reveal_strlit("Bearer");
    let text = trim(auth, Blank::Unicode);
    let (a, b) = trim_takes_only_the_ends(auth);
    if has_prefix(text, "Bearer"@) {
        let rest = text.skip(6);
        let (c, d) = trim_takes_only_the_ends(rest);
        if d < rest.len() {
            assert(white_space(rest[rest.len() - 1]));
            assert(rest.last() == text.last());
            assert(text.last() == auth[b - 1]);
        }
        assert(rest.subrange(c, d) == text.skip(6 + c));
        assert forall|i: int| 6 <= i < 6 + c implies white_space(#[trigger] text[i]) by {
            assert(rest[i - 6] == text[i]);
        }
        6 + c
    } else {
        0
    }
}

/// The address that a request counts as coming from is the forwarded one if and only
/// if proxies are trusted, the peer is in one of the trusted networks, and there is
/// a forwarded one. Otherwise it is the peer's, and without a peer there is none.
pub proof fn forwarded_addresses_count_behind_trusted_proxies(
    config: AppConfig,
    forwarded: Option<ClientAddr>,
    peer: ClientAddr,
    i: int,
)
    ensures
        requester(config, forwarded, None) is None,
        !config.trust_proxy_headers ==> requester(config, forwarded, Some(peer)) == Some(peer),
        (forall|j: int|
            0 <= j < config.trusted_proxy_cidrs@.len() ==> !in_network(
                peer.ip,
                #[trigger] config.trusted_proxy_cidrs@[j],
            )) ==> requester(config, forwarded, Some(peer)) == Some(peer),
        config.trust_proxy_headers && 0 <= i < config.trusted_proxy_cidrs@.len() && in_network(
            peer.ip,
            config.trusted_proxy_cidrs@[i],
        ) ==> requester(config, forwarded, Some(peer)) == (if forwarded is Some {
            forwarded
        } else {
            Some(peer)
        }),
{
}

/// The first address of a list is what stands before its first comma, without the
/// white space around it; an empty one does not count.
pub proof fn first_address_stands_before_the_comma(raw: Seq<char>, i: int)
    requires
        0 <= i <= raw.len(),
        i < raw.len() ==> raw[i] == ',',
        forall|j: int| 0 <= j < i ==> #[trigger] raw[j] != ',',
    ensures
        trim(raw.take(i), Blank::Unicode).len() == 0 ==> leftmost_item(raw) is None,
        trim(raw.take(i), Blank::Unicode).len() > 0 ==> leftmost_item(raw) == Some(
            trim(raw.take(i), Blank::Unicode),
        ),
{
    raw.index_of_first_ensures(',');
    if i < raw.len() {
        assert(raw.contains(raw[i]));
        let first = raw.index_of_first(',')->0;
        assert(raw[first] == ',');
        assert(first == i);
    } else {
        assert(raw.take(i) == raw);
    }
}

/// An optional address is shown as it is.
pub proof fn optional_addresses_are_shown(addr: &ClientAddr)
    ensures
        opt_addr(Some(addr)) == Some(*addr),
        opt_addr(None) == None::<ClientAddr>,
{
}

} // verus!
