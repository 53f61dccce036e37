//! Settings: their defaults, and how the environment changes them.

use ipnet::AddrParseError;
use vstd::prelude::*;

use crate::net::{ip_net_of, parse_ip_net, IpNet};
use crate::text::{
    ascii_lower, chars_of, lowered, opt_text, parse_unsigned, same_text, string_of, texts, trim,
    trimmed, unsigned_value, white_space, Blank,
};

verus! {

/// A span of time, or a reading of a monotonic clock, in nanoseconds.
pub type Nanos = u128;

/// The settings of the gateway. All times are in nanoseconds, whatever the unit
/// that they are set in.
#[derive(Clone, Debug)]
pub struct AppConfig {
    pub readyz_max_snapshot_age: Nanos,
    pub max_request_bytes: usize,
    pub max_model_list_items: usize,
    pub backend_base_url: String,
    pub models_url: String,
    pub models_refresh_ms: Nanos,
    pub utilization_url: String,
    pub utilization_refresh_ms: Nanos,
    pub control_plane_timeout: Nanos,
    pub upstream_connect_timeout: Nanos,
    pub upstream_header_timeout: Nanos,
    pub upstream_first_body_byte_timeout: Nanos,
    pub sticky_ttl: Nanos,
    pub sticky_max_entries: usize,
    pub trust_proxy_headers: bool,
    pub trusted_proxy_cidrs: Vec<IpNet>,
}

/// The settings as values.
pub struct ConfigView {
    pub readyz_max_snapshot_age: nat,
    pub max_request_bytes: nat,
    pub max_model_list_items: nat,
    pub backend_base_url: Seq<char>,
    pub models_url: Seq<char>,
    pub models_refresh_ms: nat,
    pub utilization_url: Seq<char>,
    pub utilization_refresh_ms: nat,
    pub control_plane_timeout: nat,
    pub upstream_connect_timeout: nat,
    pub upstream_header_timeout: nat,
    pub upstream_first_body_byte_timeout: nat,
    pub sticky_ttl: nat,
    pub sticky_max_entries: nat,
    pub trust_proxy_headers: bool,
    pub trusted_proxy_cidrs: Seq<IpNet>,
}

impl View for AppConfig {
    type V = ConfigView;

    open spec fn view(&self) -> ConfigView {
        ConfigView {
            readyz_max_snapshot_age: self.readyz_max_snapshot_age as nat,
            max_request_bytes: self.max_request_bytes as nat,
            max_model_list_items: self.max_model_list_items as nat,
            backend_base_url: self.backend_base_url@,
            models_url: self.models_url@,
            models_refresh_ms: self.models_refresh_ms as nat,
            utilization_url: self.utilization_url@,
            utilization_refresh_ms: self.utilization_refresh_ms as nat,
            control_plane_timeout: self.control_plane_timeout as nat,
            upstream_connect_timeout: self.upstream_connect_timeout as nat,
            upstream_header_timeout: self.upstream_header_timeout as nat,
            upstream_first_body_byte_timeout: self.upstream_first_body_byte_timeout as nat,
            sticky_ttl: self.sticky_ttl as nat,
            sticky_max_entries: self.sticky_max_entries as nat,
            trust_proxy_headers: self.trust_proxy_headers,
            trusted_proxy_cidrs: self.trusted_proxy_cidrs@,
        }
    }
}

pub open spec fn millis(n: nat) -> nat {
    n * 1_000_000
}

pub open spec fn seconds(n: nat) -> nat {
    n * 1_000_000_000
}

/// The settings of an empty environment.
pub open spec fn default_config() -> ConfigView {
    ConfigView {
        readyz_max_snapshot_age: millis(20_000),
        max_request_bytes: 1_048_576,
        max_model_list_items: 8,
        backend_base_url: "https://llm.chutes.ai"@,
        models_url: "https://llm.chutes.ai/v1/models"@,
        models_refresh_ms: millis(300_000),
        utilization_url: "https://api.chutes.ai/chutes/utilization"@,
        utilization_refresh_ms: millis(5_000),
        control_plane_timeout: millis(10_000),
        upstream_connect_timeout: millis(2_000),
        upstream_header_timeout: millis(10_000),
        upstream_first_body_byte_timeout: millis(120_000),
        sticky_ttl: seconds(1_800),
        sticky_max_entries: 10_000,
        trust_proxy_headers: false,
        trusted_proxy_cidrs: Seq::empty(),
    }
}

impl Default for AppConfig {
    fn default() -> (r: AppConfig)
        ensures
            r@ == default_config(),
    {
        AppConfig {
            readyz_max_snapshot_age: 20_000_000_000,
            max_request_bytes: 1_048_576,
            max_model_list_items: 8,
            backend_base_url: "https://llm.chutes.ai".to_owned(),
            models_url: "https://llm.chutes.ai/v1/models".to_owned(),
            models_refresh_ms: 300_000_000_000,
            utilization_url: "https://api.chutes.ai/chutes/utilization".to_owned(),
            utilization_refresh_ms: 5_000_000_000,
            control_plane_timeout: 10_000_000_000,
            upstream_connect_timeout: 2_000_000_000,
            upstream_header_timeout: 10_000_000_000,
            upstream_first_body_byte_timeout: 120_000_000_000,
            sticky_ttl: 1_800_000_000_000,
            sticky_max_entries: 10_000,
            trust_proxy_headers: false,
            trusted_proxy_cidrs: Vec::new(),
        }
    }
}

/// The address of the chat completions endpoint: the base address, without
/// slashes at its end, and the path.
pub open spec fn completions_url(base: Seq<char>) -> Seq<char> {
    without_slashes(base) + "/v1/chat/completions"@
}

/// `s` without the slashes at its end.
pub open spec fn without_slashes(s: Seq<char>) -> Seq<char>
    decreases s.len(),
{
    if s.len() > 0 && s.last() == '/' {
        without_slashes(s.drop_last())
    } else {
        s
    }
}

/// The address that chat completions are sent to.
pub fn upstream_chat_completions_url(config: &AppConfig) -> (r: String)
    ensures
        r@ == completions_url(config@.backend_base_url),
{
    let chars = chars_of(config.backend_base_url.as_str());
    let ghost base = chars@;
    let mut end: usize = chars.len();
    assert(base.take(end as int) == base);
    while end > 0 && chars[end - 1] == '/'
        invariant
            end <= chars@.len(),
            chars@ == base,
            without_slashes(base) == without_slashes(base.take(end as int)),
        decreases end,
    {
        assert(base.take(end as int).drop_last() == base.take(end - 1));
        end -= 1;
    }
    assert(without_slashes(base) == base.take(end as int));
    let mut out = string_of(&chars, 0, end);
    assert(base.subrange(0, end as int) == base.take(end as int));
    out.append("/v1/chat/completions");
    out
}

/// What the environment gives for a name, if it sets the name.
pub open spec fn env_value(vars: Seq<(String, String)>, name: Seq<char>) -> Option<Seq<char>>
    decreases vars.len(),
{
    if vars.len() == 0 {
        None
    } else if vars[0].0@ == name {
        Some(vars[0].1@)
    } else {
        env_value(vars.drop_first(), name)
    }
}

fn env_raw(vars: &Vec<(String, String)>, name: &str) -> (r: Option<String>)
    ensures
        opt_text(r) == env_value(vars@, name@),
{
    let mut i: usize = 0;
    assert(vars@.skip(0) == vars@);
    while i < vars.len()
        invariant
            i <= vars@.len(),
            env_value(vars@, name@) == env_value(vars@.skip(i as int), name@),
        decreases vars@.len() - i,
    {
        assert(vars@.skip(i as int)[0] == vars@[i as int]);
        assert(vars@.skip(i as int).drop_first() == vars@.skip(i + 1));
        if same_text(vars[i].0.as_str(), name) {
            return Some(vars[i].1.clone());
        }
        i += 1;
    }
    None
}

/// The number that a variable sets, where it sets one of at most `max`.
pub open spec fn env_number(
    vars: Seq<(String, String)>,
    name: Seq<char>,
    max: nat,
) -> Option<nat> {
    match env_value(vars, name) {
        Some(raw) => unsigned_value(trim(raw, Blank::Unicode), max),
        None => None,
    }
}

/// The number that a variable sets, if it sets a 64-bit number.
pub fn env_u64(vars: &Vec<(String, String)>, name: &str) -> (r: Option<u64>)
    ensures
        r is Some <==> env_number(vars@, name@, u64::MAX as nat) is Some,
        r matches Some(n) ==> Some(n as nat) == env_number(vars@, name@, u64::MAX as nat),
{
    match env_raw(vars, name) {
        Some(raw) => parse_unsigned(trimmed(raw.as_str()).as_str(), u64::MAX),
        None => None,
    }
}

/// The number that a variable sets, if it sets one that fits a size.
pub fn env_usize(vars: &Vec<(String, String)>, name: &str) -> (r: Option<usize>)
    ensures
        r is Some <==> env_number(vars@, name@, usize::MAX as nat) is Some,
        r matches Some(n) ==> Some(n as nat) == env_number(vars@, name@, usize::MAX as nat),
{
    match env_raw(vars, name) {
        Some(raw) => match parse_unsigned(trimmed(raw.as_str()).as_str(), usize::MAX as u64) {
            Some(n) => Some(n as usize),
            None => None,
        },
        None => None,
    }
}

pub open spec fn env_text(vars: Seq<(String, String)>, name: Seq<char>) -> Option<Seq<char>> {
    match env_value(vars, name) {
        Some(raw) => Some(trim(raw, Blank::Unicode)),
        None => None,
    }
}

/// What a variable sets, without the white space around it.
pub fn env_string(vars: &Vec<(String, String)>, name: &str) -> (r: Option<String>)
    ensures
        opt_text(r) == env_text(vars@, name@),
{
    match env_raw(vars, name) {
        Some(raw) => Some(trimmed(raw.as_str())),
        None => None,
    }
}

/// A word of the environment that cannot be used.
#[derive(Debug)]
pub enum ConfigError {
    /// The variable `name` is set to `raw`, which is neither true nor false.
    InvalidBool { name: String, raw: String },
    /// A trusted network is not in CIDR form.
    InvalidCidr(CidrError),
}

/// A word that is not a network in CIDR form.
#[derive(Debug)]
pub struct CidrError {
    pub token: String,
    pub error: AddrParseError,
}

pub enum ConfigErrorView {
    InvalidBool { name: Seq<char>, raw: Seq<char> },
    InvalidCidr { token: Seq<char> },
}

impl View for ConfigError {
    type V = ConfigErrorView;

    open spec fn view(&self) -> ConfigErrorView {
        match self {
            ConfigError::InvalidBool { name, raw } => ConfigErrorView::InvalidBool {
                name: name@,
                raw: raw@,
            },
            ConfigError::InvalidCidr(e) => ConfigErrorView::InvalidCidr { token: e.token@ },
        }
    }
}

/// The truth value of a word, in any case, where it is one.
pub open spec fn truth_value(word: Seq<char>) -> Option<bool> {
    let w = ascii_lower(word);
    if w == "1"@ || w == "true"@ || w == "yes"@ || w == "on"@ {
        Some(true)
    } else if w == "0"@ || w == "false"@ || w == "no"@ || w == "off"@ {
        Some(false)
    } else {
        None
    }
}

/// The truth value that a variable sets: none where it is not set or blank.
pub open spec fn env_truth(vars: Seq<(String, String)>, name: Seq<char>) -> Result<
    Option<bool>,
    ConfigErrorView,
> {
    match env_value(vars, name) {
        None => Ok(None),
        Some(raw) => {
            let word = trim(raw, Blank::Unicode);
            if word.len() == 0 {
                Ok(None)
            } else if truth_value(word) is Some {
                Ok(truth_value(word))
            } else {
                Err(ConfigErrorView::InvalidBool { name, raw })
            }
        },
    }
}

/// The truth value that a variable sets.
pub fn env_bool(vars: &Vec<(String, String)>, name: &str) -> (r: Result<Option<bool>, ConfigError>)
    ensures
        match r {
            Ok(value) => env_truth(vars@, name@) == Ok::<Option<bool>, ConfigErrorView>(value),
            Err(e) => env_truth(vars@, name@) == Err::<Option<bool>, ConfigErrorView>(e@),
        },
{
    let raw = match env_raw(vars, name) {
        Some(raw) => raw,
        None => {
            return Ok(None);
        },
    };
    let word = trimmed(raw.as_str());
    if word.as_str().is_empty() {
        return Ok(None);
    }
    let low = lowered(word.as_str());
    let w = low.as_str();
    if same_text(w, "1") || same_text(w, "true") || same_text(w, "yes") || same_text(w, "on") {
        Ok(Some(true))
    } else if same_text(w, "0") || same_text(w, "false") || same_text(w, "no") || same_text(
        w,
        "off",
    ) {
        Ok(Some(false))
    } else {
        Err(ConfigError::InvalidBool { name: name.to_owned(), raw })
    }
}

/// The characters that separate networks.
pub open spec fn cidr_separator(c: char) -> bool {
    c == ',' || white_space(c)
}

/// The words of a list of networks: the runs of characters between commas and
/// white space.
pub open spec fn cidr_words(s: Seq<char>) -> Seq<Seq<char>>
    decreases s.len(),
{
    if s.len() == 0 {
        Seq::empty()
    } else if cidr_separator(s.last()) {
        cidr_words(s.drop_last())
    } else {
        let before = cidr_words(s.drop_last());
        if s.len() > 1 && !cidr_separator(s[s.len() - 2]) {
            before.drop_last().push(before.last().push(s.last()))
        } else {
            before.push(seq![s.last()])
        }
    }
}

/// The words of a list of networks.
pub fn trusted_proxy_words(raw: &str) -> (r: Vec<String>)
    ensures
        texts(r@) == cidr_words(raw@),
{
    let chars = chars_of(raw);
    let mut out: Vec<String> = Vec::new();
    let mut i: usize = 0;
    let ghost s = chars@;
    proof {
        assert(texts(out@) == cidr_words(s.take(0)));
    }
    while i < chars.len()
        invariant
            i <= chars@.len(),
            chars@ == s,
            texts(out@) == cidr_words(s.take(i as int)),
            i > 0 && !cidr_separator(s[i - 1]) ==> out@.len() > 0,
        decreases chars@.len() - i,
    {
        let c = chars[i];
        let ghost t = s.take(i + 1);
        let ghost before = out@;
        assert(t.drop_last() == s.take(i as int));
        assert(t.last() == c);
        if !(c == ',' || c.is_whitespace()) {
            let mut word = String::new();
            if i > 0 && !(chars[i - 1] == ',' || chars[i - 1].is_whitespace()) {
                assert(t[t.len() - 2] == s[i - 1]);
                if let Some(open) = out.pop() {
                    word = open;
                }
                assert(word == before.last());
                assert(texts(out@) == texts(before).drop_last());
                assert(word@ == texts(before).last());
            } else {
                assert(i > 0 ==> t[t.len() - 2] == s[i - 1]);
            }
            let ghost held = out@;
            let ghost start = word@;
            word.push(c);
            out.push(word);
            assert(texts(out@) == texts(held).push(start.push(c)));
            assert(Seq::<char>::empty().push(c) == seq![c]);
        }
        i += 1;
    }
    assert(s.take(s.len() as int) == s);
    out
}

/// The networks of a list of readings, or the word of the first failed one.
pub open spec fn all_nets(parsed: Seq<Result<IpNet, CidrError>>) -> Result<Seq<IpNet>, Seq<char>>
    decreases parsed.len(),
{
    if parsed.len() == 0 {
        Ok(Seq::empty())
    } else {
        match all_nets(parsed.drop_last()) {
            Err(token) => Err(token),
            Ok(nets) => match parsed.last() {
                Ok(net) => Ok(nets.push(net)),
                Err(e) => Err(e.token@),
            },
        }
    }
}

/// The networks of a list of readings, or the first failed one.
pub fn collect_nets(parsed: Vec<Result<IpNet, CidrError>>) -> (r: Result<Vec<IpNet>, CidrError>)
    ensures
        match r {
            Ok(nets) => all_nets(parsed@) == Ok::<Seq<IpNet>, Seq<char>>(nets@),
            Err(e) => all_nets(parsed@) == Err::<Seq<IpNet>, Seq<char>>(e.token@),
        },
{
    let ghost all = parsed@;
    let mut out: Vec<IpNet> = Vec::new();
    let mut failed: Option<CidrError> = None;
    assert(all_nets(all.take(0)) == Ok::<Seq<IpNet>, Seq<char>>(out@));
    for reading in it: parsed
        invariant
            it.seq() == all,
            match failed {
                None => all_nets(all.take(it.index())) == Ok::<Seq<IpNet>, Seq<char>>(out@),
                Some(e) => all_nets(all.take(it.index())) == Err::<Seq<IpNet>, Seq<char>>(
                    e.token@,
                ),
            },
    {
        assert(all.take(it.index() + 1).drop_last() == all.take(it.index()));
        if failed.is_none() {
            match reading {
                Ok(net) => {
                    out.push(net);
                },
                Err(e) => {
                    failed = Some(e);
                },
            }
        }
    }
    assert(all.take(all.len() as int) == all);
    match failed {
        Some(e) => Err(e),
        None => Ok(out),
    }
}

/// The networks that words denote, or the first word that denotes none.
pub open spec fn word_nets(words: Seq<Seq<char>>) -> Result<Seq<IpNet>, Seq<char>>
    decreases words.len(),
{
    if words.len() == 0 {
        Ok(Seq::empty())
    } else {
        match word_nets(words.drop_last()) {
            Err(token) => Err(token),
            Ok(nets) => match ip_net_of(words.last()) {
                Some(net) => Ok(nets.push(net)),
                None => Err(words.last()),
            },
        }
    }
}

/// The networks of a list that commas and white space separate, or the first word
/// that is not a network in CIDR form.
pub fn parse_trusted_proxy_cidrs(raw: &str) -> (r: Result<Vec<IpNet>, CidrError>)
    ensures
        match r {
            Ok(nets) => word_nets(cidr_words(raw@)) == Ok::<Seq<IpNet>, Seq<char>>(nets@),
            Err(e) => word_nets(cidr_words(raw@)) == Err::<Seq<IpNet>, Seq<char>>(e.token@),
        },
{
    let words = trusted_proxy_words(raw);
    let ghost all = texts(words@);
    let mut parsed: Vec<Result<IpNet, CidrError>> = Vec::new();
    let mut i: usize = 0;
    assert(all_nets(parsed@) == word_nets(all.take(0)));
    while i < words.len()
        invariant
            i <= words@.len(),
            all == texts(words@),
            all_nets(parsed@) == word_nets(all.take(i as int)),
        decreases words@.len() - i,
    {
        let word = words[i].as_str();
        let reading = match parse_ip_net(word) {
            Ok(net) => Ok(net),
            Err(error) => Err(CidrError { token: word.to_owned(), error }),
        };
        let ghost before = parsed@;
        parsed.push(reading);
        assert(parsed@.drop_last() == before);
        assert(all.take(i + 1).drop_last() == all.take(i as int));
        i += 1;
    }
    assert(all.take(all.len() as int) == all);
    collect_nets(parsed)
}

pub open spec fn or_default<T>(value: Option<T>, default: T) -> T {
    match value {
        Some(v) => v,
        None => default,
    }
}

pub open spec fn env_millis(vars: Seq<(String, String)>, name: Seq<char>, default: nat) -> nat {
    match env_number(vars, name, u64::MAX as nat) {
        Some(n) => millis(n),
        None => default,
    }
}

/// The settings of an environment in which the trusted networks read as `nets`.
/// A variable that is not set, or not set to a number where one is due, keeps the
/// default. The networks count only where proxy headers are trusted.
pub open spec fn configured(
    vars: Seq<(String, String)>,
    nets: Result<Seq<IpNet>, Seq<char>>,
) -> Result<ConfigView, ConfigErrorView> {
    let d = default_config();
    let size = usize::MAX as nat;
    match env_truth(vars, "TRUST_PROXY_HEADERS"@) {
        Err(e) => Err(e),
        Ok(trust) => {
            let config = ConfigView {
                readyz_max_snapshot_age: env_millis(
                    vars,
                    "READYZ_MAX_SNAPSHOT_AGE_MS"@,
                    d.readyz_max_snapshot_age,
                ),
                max_request_bytes: or_default(
                    env_number(vars, "MAX_REQUEST_BYTES"@, size),
                    d.max_request_bytes,
                ),
                max_model_list_items: or_default(
                    env_number(vars, "MAX_MODEL_LIST_ITEMS"@, size),
                    d.max_model_list_items,
                ),
                backend_base_url: or_default(
                    env_text(vars, "BACKEND_BASE_URL"@),
                    d.backend_base_url,
                ),
                models_url: or_default(
                    env_text(vars, "MODELS_URL"@),
                    d.models_url,
                ),
                models_refresh_ms: env_millis(
                    vars,
                    "MODELS_REFRESH_MS"@,
                    d.models_refresh_ms,
                ),
                utilization_url: or_default(
                    env_text(vars, "UTILIZATION_URL"@),
                    d.utilization_url,
                ),
                utilization_refresh_ms: env_millis(
                    vars,
                    "UTILIZATION_REFRESH_MS"@,
                    d.utilization_refresh_ms,
                ),
                control_plane_timeout: env_millis(
                    vars,
                    "CONTROL_PLANE_TIMEOUT_MS"@,
                    d.control_plane_timeout,
                ),
                upstream_connect_timeout: env_millis(
                    vars,
                    "UPSTREAM_CONNECT_TIMEOUT_MS"@,
                    d.upstream_connect_timeout,
                ),
                upstream_header_timeout: env_millis(
                    vars,
                    "UPSTREAM_HEADER_TIMEOUT_MS"@,
                    d.upstream_header_timeout,
                ),
                upstream_first_body_byte_timeout: env_millis(
                    vars,
                    "UPSTREAM_FIRST_BODY_BYTE_TIMEOUT_MS"@,
                    d.upstream_first_body_byte_timeout,
                ),
                sticky_ttl: match env_number(vars, "STICKY_TTL_SECS"@, u64::MAX as nat) {
                    Some(n) => seconds(n),
                    None => d.sticky_ttl,
                },
                sticky_max_entries: or_default(
                    env_number(vars, "STICKY_MAX_ENTRIES"@, size),
                    d.sticky_max_entries,
                ),
                trust_proxy_headers: or_default(trust, d.trust_proxy_headers),
                trusted_proxy_cidrs: d.trusted_proxy_cidrs,
            };
            if config.trust_proxy_headers && env_text(vars, "TRUSTED_PROXY_CIDRS"@) is Some {
                match nets {
                    Ok(n) => Ok(ConfigView { trusted_proxy_cidrs: n, ..config }),
                    Err(token) => Err(ConfigErrorView::InvalidCidr { token }),
                }
            } else {
                Ok(config)
            }
        },
    }
}

pub open spec fn nets_view(nets: Result<Vec<IpNet>, CidrError>) -> Result<Seq<IpNet>, Seq<char>> {
    match nets {
        Ok(n) => Ok(n@),
        Err(e) => Err(e.token@),
    }
}

fn set_millis(vars: &Vec<(String, String)>, name: &str, field: &mut Nanos)
    ensures
        *final(field) as nat == env_millis(vars@, name@, *old(field) as nat),
{
    if let Some(ms) = env_u64(vars, name) {
        *field = ms as u128 * 1_000_000;
    }
}

fn set_size(vars: &Vec<(String, String)>, name: &str, field: &mut usize)
    ensures
        *final(field) as nat == or_default(
            env_number(vars@, name@, usize::MAX as nat),
            *old(field) as nat,
        ),
{
    if let Some(value) = env_usize(vars, name) {
        *field = value;
    }
}

fn set_text(vars: &Vec<(String, String)>, name: &str, field: &mut String)
    ensures
        final(field)@ == or_default(env_text(vars@, name@), old(field)@),
{
    if let Some(value) = env_string(vars, name) {
        *field = value;
    }
}

/// The settings of an environment in which the trusted networks read as `nets`.
pub fn configure(vars: &Vec<(String, String)>, nets: Result<Vec<IpNet>, CidrError>) -> (r: Result<
    AppConfig,
    ConfigError,
>)
    ensures
        match r {
            Ok(config) => configured(vars@, nets_view(nets)) == Ok::<ConfigView, ConfigErrorView>(
                config@,
            ),
            Err(e) => configured(vars@, nets_view(nets)) == Err::<ConfigView, ConfigErrorView>(e@),
        },
{
    let mut cfg = AppConfig::default();
    set_millis(vars, "READYZ_MAX_SNAPSHOT_AGE_MS", &mut cfg.readyz_max_snapshot_age);
    set_size(vars, "MAX_REQUEST_BYTES", &mut cfg.max_request_bytes);
    set_size(vars, "MAX_MODEL_LIST_ITEMS", &mut cfg.max_model_list_items);
    set_text(vars, "BACKEND_BASE_URL", &mut cfg.backend_base_url);
    set_text(vars, "MODELS_URL", &mut cfg.models_url);
    set_millis(vars, "MODELS_REFRESH_MS", &mut cfg.models_refresh_ms);
    set_text(vars, "UTILIZATION_URL", &mut cfg.utilization_url);
    set_millis(vars, "UTILIZATION_REFRESH_MS", &mut cfg.utilization_refresh_ms);
    set_millis(vars, "CONTROL_PLANE_TIMEOUT_MS", &mut cfg.control_plane_timeout);
    set_millis(vars, "UPSTREAM_CONNECT_TIMEOUT_MS", &mut cfg.upstream_connect_timeout);
    set_millis(vars, "UPSTREAM_HEADER_TIMEOUT_MS", &mut cfg.upstream_header_timeout);
    set_millis(
        vars,
        "UPSTREAM_FIRST_BODY_BYTE_TIMEOUT_MS",
        &mut cfg.upstream_first_body_byte_timeout,
    );
    if let Some(secs) = env_u64(vars, "STICKY_TTL_SECS") {
        cfg.sticky_ttl = secs as u128 * 1_000_000_000;
    }
    set_size(vars, "STICKY_MAX_ENTRIES", &mut cfg.sticky_max_entries);

    match env_bool(vars, "TRUST_PROXY_HEADERS") {
        Err(e) => {
            return Err(e);
        },
        Ok(Some(trust)) => {
            cfg.trust_proxy_headers = trust;
        },
        Ok(None) => {},
    }
    if cfg.trust_proxy_headers {
        if let Some(_) = env_string(vars, "TRUSTED_PROXY_CIDRS") {
            match nets {
                Ok(n) => {
                    cfg.trusted_proxy_cidrs = n;
                },
                Err(e) => {
                    return Err(ConfigError::InvalidCidr(e));
                },
            }
        }
    }
    Ok(cfg)
}

/// The settings of an environment.
pub fn config_from_env(vars: &Vec<(String, String)>) -> (r: Result<AppConfig, ConfigError>)
    ensures
        ({
            let nets = match env_text(vars@, "TRUSTED_PROXY_CIDRS"@) {
                Some(raw) => word_nets(cidr_words(raw)),
                None => Ok(Seq::empty()),
            };
            match r {
                Ok(config) => configured(vars@, nets) == Ok::<ConfigView, ConfigErrorView>(
                    config@,
                ),
                Err(e) => configured(vars@, nets) == Err::<ConfigView, ConfigErrorView>(e@),
            }
        }),
{
    let nets = match env_string(vars, "TRUSTED_PROXY_CIDRS") {
        Some(raw) => parse_trusted_proxy_cidrs(raw.as_str()),
        None => Ok(Vec::new()),
    };
    configure(vars, nets)
}

/// Slashes at the end of the base address make no difference.
pub proof fn slashes_at_the_end_make_no_difference(base: Seq<char>)
    ensures
        completions_url(base.push('/')) == completions_url(base),
        without_slashes(base).len() > 0 ==> without_slashes(base).last() != '/',
        without_slashes(without_slashes(base)) == without_slashes(base),
    decreases base.len(),
{
    assert(base.push('/').drop_last() == base);
    if base.len() > 0 && base.last() == '/' {
        slashes_at_the_end_make_no_difference(base.drop_last());
    }
}

/// An environment that sets nothing leaves every setting at its default.
pub proof fn empty_environment_gives_the_defaults(
    vars: Seq<(String, String)>,
    nets: Result<Seq<IpNet>, Seq<char>>,
)
    requires
        forall|name: Seq<char>| #[trigger] env_value(vars, name) is None,
    ensures
        configured(vars, nets) == Ok::<ConfigView, ConfigErrorView>(default_config()),
{
}

/// The networks of trusted proxies do not count where proxy headers are not
/// trusted.
pub proof fn networks_count_only_where_proxies_are_trusted(
    vars: Seq<(String, String)>,
    a: Result<Seq<IpNet>, Seq<char>>,
    b: Result<Seq<IpNet>, Seq<char>>,
)
    requires
        env_truth(vars, "TRUST_PROXY_HEADERS"@) != Ok::<Option<bool>, ConfigErrorView>(Some(true)),
    ensures
        configured(vars, a) == configured(vars, b),
{
}

/// Settings show what they hold.
pub proof fn settings_show_their_fields(config: AppConfig)
    ensures
        config@.readyz_max_snapshot_age == config.readyz_max_snapshot_age,
        config@.max_request_bytes == config.max_request_bytes,
        config@.max_model_list_items == config.max_model_list_items,
        config@.models_refresh_ms == config.models_refresh_ms,
        config@.utilization_refresh_ms == config.utilization_refresh_ms,
        config@.control_plane_timeout == config.control_plane_timeout,
        config@.upstream_connect_timeout == config.upstream_connect_timeout,
        config@.upstream_header_timeout == config.upstream_header_timeout,
        config@.upstream_first_body_byte_timeout == config.upstream_first_body_byte_timeout,
        config@.sticky_ttl == config.sticky_ttl,
        config@.sticky_max_entries == config.sticky_max_entries,
        config@.backend_base_url == config.backend_base_url@,
        config@.models_url == config.models_url@,
        config@.utilization_url == config.utilization_url@,
        config@.trust_proxy_headers == config.trust_proxy_headers,
        config@.trusted_proxy_cidrs == config.trusted_proxy_cidrs@,
{
}

/// A variable has the value of the first pair with its name, and none where no pair
/// has its name.
pub proof fn variables_have_their_first_value(
    vars: Seq<(String, String)>,
    name: Seq<char>,
    i: int,
)
    requires
        0 <= i <= vars.len(),
        i < vars.len() ==> vars[i].0@ == name,
        forall|j: int| 0 <= j < i ==> (#[trigger] vars[j]).0@ != name,
    ensures
        i < vars.len() ==> env_value(vars, name) == Some(vars[i].1@),
        i == vars.len() ==> env_value(vars, name) is None,
    decreases i,
{
    if i > 0 {
        let rest = vars.drop_first();
        assert(vars[0].0@ != name);
        assert forall|j: int| 0 <= j < i - 1 implies (#[trigger] rest[j]).0@ != name by {
            assert(rest[j] == vars[j + 1]);
        }
        variables_have_their_first_value(rest, name, i - 1);
    }
}

/// Every number that a variable sets is the setting, whatever its size: in
/// milliseconds, in seconds or as a count. Text is the setting without the white
/// space around it. A variable that is not set, or not to a number where one is due,
/// leaves the default.
pub proof fn variables_set_their_settings(
    vars: Seq<(String, String)>,
    nets: Result<Seq<IpNet>, Seq<char>>,
    config: ConfigView,
)
    requires
        configured(vars, nets) == Ok::<ConfigView, ConfigErrorView>(config),
    ensures
        ({
            let number = |name: Seq<char>, max: nat|
                match env_value(vars, name) {
                    Some(raw) => unsigned_value(trim(raw, Blank::Unicode), max),
                    None => None,
                };
            let time = |name: Seq<char>, unit: nat, default: nat|
                match number(name, 0xffff_ffff_ffff_ffff) {
                    Some(n) => n * unit,
                    None => default * unit,
                };
            let count = |name: Seq<char>, default: nat|
                match number(name, usize::MAX as nat) {
                    Some(n) => n,
                    None => default,
                };
            let text = |name: Seq<char>, default: Seq<char>|
                match env_value(vars, name) {
                    Some(raw) => trim(raw, Blank::Unicode),
                    None => default,
                };
            &&& config.readyz_max_snapshot_age == time("READYZ_MAX_SNAPSHOT_AGE_MS"@, 1_000_000, 20_000)
            &&& config.models_refresh_ms == time("MODELS_REFRESH_MS"@, 1_000_000, 300_000)
            &&& config.utilization_refresh_ms == time("UTILIZATION_REFRESH_MS"@, 1_000_000, 5_000)
            &&& config.control_plane_timeout == time("CONTROL_PLANE_TIMEOUT_MS"@, 1_000_000, 10_000)
            &&& config.upstream_connect_timeout == time("UPSTREAM_CONNECT_TIMEOUT_MS"@, 1_000_000, 2_000)
            &&& config.upstream_header_timeout == time("UPSTREAM_HEADER_TIMEOUT_MS"@, 1_000_000, 10_000)
            &&& config.upstream_first_body_byte_timeout == time("UPSTREAM_FIRST_BODY_BYTE_TIMEOUT_MS"@, 1_000_000, 120_000)
            &&& config.sticky_ttl == time("STICKY_TTL_SECS"@, 1_000_000_000, 1_800)
            &&& config.max_request_bytes == count("MAX_REQUEST_BYTES"@, 1_048_576)
            &&& config.max_model_list_items == count("MAX_MODEL_LIST_ITEMS"@, 8)
            &&& config.sticky_max_entries == count("STICKY_MAX_ENTRIES"@, 10_000)
            &&& config.backend_base_url == text("BACKEND_BASE_URL"@, "https://llm.chutes.ai"@)
            &&& config.models_url == text("MODELS_URL"@, "https://llm.chutes.ai/v1/models"@)
            &&& config.utilization_url == text("UTILIZATION_URL"@, "https://api.chutes.ai/chutes/utilization"@)
        }),
{
}

/// The defaults.
pub proof fn defaults_are_these()
    ensures
        default_config().readyz_max_snapshot_age == 20_000 * 1_000_000nat,
        default_config().models_refresh_ms == 300_000 * 1_000_000nat,
        default_config().utilization_refresh_ms == 5_000 * 1_000_000nat,
        default_config().control_plane_timeout == 10_000 * 1_000_000nat,
        default_config().upstream_connect_timeout == 2_000 * 1_000_000nat,
        default_config().upstream_header_timeout == 10_000 * 1_000_000nat,
        default_config().upstream_first_body_byte_timeout == 120_000 * 1_000_000nat,
        default_config().sticky_ttl == 1_800 * 1_000_000_000nat,
        default_config().max_request_bytes == 1_048_576,
        default_config().max_model_list_items == 8,
        default_config().sticky_max_entries == 10_000,
        default_config().backend_base_url == "https://llm.chutes.ai"@,
        default_config().models_url == "https://llm.chutes.ai/v1/models"@,
        default_config().utilization_url == "https://api.chutes.ai/chutes/utilization"@,
        !default_config().trust_proxy_headers,
        default_config().trusted_proxy_cidrs.len() == 0,
{
}

/// A truth value is one of four words for yes or of four for no, in any case and
/// with white space around it. A variable that is blank or not set sets none, and
/// any other word is refused, with the name of the variable and what it was set to.
pub proof fn truth_values_are_eight_words(vars: Seq<(String, String)>, name: Seq<char>)
    ensures
        env_value(vars, name) is None ==> env_truth(vars, name) == Ok::<
            Option<bool>,
            ConfigErrorView,
        >(None),
        env_value(vars, name) matches Some(raw) ==> ({
            let word = trim(raw, Blank::Unicode);
            let low = ascii_lower(word);
            let yes = low == "1"@ || low == "true"@ || low == "yes"@ || low == "on"@;
            let no = low == "0"@ || low == "false"@ || low == "no"@ || low == "off"@;
            &&& word.len() == 0 ==> env_truth(vars, name) == Ok::<Option<bool>, ConfigErrorView>(
                None,
            )
            &&& word.len() > 0 && yes ==> env_truth(vars, name) == Ok::<
                Option<bool>,
                ConfigErrorView,
            >(Some(true))
            &&& word.len() > 0 && !yes && no ==> env_truth(vars, name) == Ok::<
                Option<bool>,
                ConfigErrorView,
            >(Some(false))
            &&& word.len() > 0 && !yes && !no ==> env_truth(vars, name) == Err::<
                Option<bool>,
                ConfigErrorView,
            >(ConfigErrorView::InvalidBool { name, raw })
        }),
{
}

/// Proxies are trusted if and only if the environment says so, and then their
/// networks are the ones that it names. Settings are refused if and only if the word
/// for that is no truth value, or a network that counts cannot be read.
pub proof fn trusted_proxies_are_set_by_two_variables(
    vars: Seq<(String, String)>,
    nets: Result<Seq<IpNet>, Seq<char>>,
)
    ensures
        match env_truth(vars, "TRUST_PROXY_HEADERS"@) {
            Err(e) => configured(vars, nets) == Err::<ConfigView, ConfigErrorView>(e),
            Ok(Some(true)) => match (env_value(vars, "TRUSTED_PROXY_CIDRS"@), nets) {
                (Some(_), Ok(list)) => configured(vars, nets) matches Ok(config)
                    && config.trust_proxy_headers && config.trusted_proxy_cidrs == list,
                (Some(_), Err(token)) => configured(vars, nets) == Err::<
                    ConfigView,
                    ConfigErrorView,
                >(ConfigErrorView::InvalidCidr { token }),
                (None, _) => configured(vars, nets) matches Ok(config)
                    && config.trust_proxy_headers && config.trusted_proxy_cidrs.len() == 0,
            },
            Ok(_) => configured(vars, nets) matches Ok(config) && !config.trust_proxy_headers
                && config.trusted_proxy_cidrs.len() == 0,
        },
{
}

proof fn lemma_words_of_run(s: Seq<char>, word: Seq<char>)
    requires
        word.len() > 0,
        s.len() > 0 ==> s.last() == ',' || white_space(s.last()),
        forall|i: int|
            0 <= i < word.len() ==> #[trigger] word[i] != ',' && !white_space(word[i]),
    ensures
        cidr_words(s + word) == cidr_words(s).push(word),
    decreases word.len(),
{
    let t = s + word;
    let less = word.drop_last();
    assert(t.last() == word.last());
    assert(word.last() == word[word.len() - 1]);
    assert(t.drop_last() == s + less);
    if less.len() == 0 {
        assert(s + less == s);
        assert(seq![t.last()] == word);
        if s.len() > 0 {
            assert(t[t.len() - 2] == s.last());
        }
    } else {
        assert forall|i: int| 0 <= i < less.len() implies #[trigger] less[i] != ','
            && !white_space(less[i]) by {
            assert(less[i] == word[i]);
        }
        lemma_words_of_run(s, less);
        assert(t[t.len() - 2] == less.last());
        assert(less.last() == word[word.len() - 2]);
        assert(less.push(word.last()) == word);
        assert(cidr_words(s).push(less).drop_last() == cidr_words(s));
    }
}

/// The words of a list of networks are its runs of characters that are neither
/// commas nor white space, all of them and in their order: a separator behind a list
/// adds no word, and a run behind a separator, or alone, adds itself.
pub proof fn networks_are_the_runs_between_separators(s: Seq<char>, c: char, word: Seq<char>)
    requires
        c == ',' || white_space(c),
        word.len() > 0,
        forall|i: int|
            0 <= i < word.len() ==> #[trigger] word[i] != ',' && !white_space(word[i]),
    ensures
        cidr_words(Seq::<char>::empty()) == Seq::<Seq<char>>::empty(),
        cidr_words(s.push(c)) == cidr_words(s),
        cidr_words(word) == seq![word],
        cidr_words(s.push(c) + word) == cidr_words(s).push(word),
{
    assert(s.push(c).drop_last() == s);
    lemma_words_of_run(Seq::empty(), word);
    assert(Seq::<char>::empty() + word == word);
    assert(cidr_words(Seq::<char>::empty()).push(word) == seq![word]);
    lemma_words_of_run(s.push(c), word);
}

/// A list of networks is read word by word: each word gives its network, in their
/// order, unless one cannot be read; then the first such word is told.
pub proof fn networks_are_read_word_by_word(words: Seq<Seq<char>>, bad: int)
    requires
        0 <= bad <= words.len(),
        bad < words.len() ==> ip_net_of(words[bad]) is None,
        forall|i: int| 0 <= i < bad ==> ip_net_of(#[trigger] words[i]) is Some,
    ensures
        bad < words.len() ==> word_nets(words) == Err::<Seq<IpNet>, Seq<char>>(words[bad]),
        bad == words.len() ==> (word_nets(words) matches Ok(nets) && nets.len() == words.len()
            && forall|i: int|
            0 <= i < nets.len() ==> Some(#[trigger] nets[i]) == ip_net_of(words[i])),
    decreases words.len(),
{
    if words.len() > 0 {
        let before = words.drop_last();
        assert forall|i: int| 0 <= i < bad && i < before.len() implies ip_net_of(
            #[trigger] before[i],
        ) is Some by {
            assert(before[i] == words[i]);
        }
        if bad < before.len() {
            assert(before[bad] == words[bad]);
            networks_are_read_word_by_word(before, bad);
        } else {
            networks_are_read_word_by_word(before, before.len() as int);
            if bad == words.len() {
                assert(ip_net_of(words[words.len() - 1]) is Some);
            }
        }
    }
}

/// The networks of a list of readings are those that were read, in their order,
/// unless one reading failed; then the word of the first failed one is told.
pub proof fn readings_are_collected_in_order(parsed: Seq<Result<IpNet, CidrError>>, bad: int)
    requires
        0 <= bad <= parsed.len(),
        bad < parsed.len() ==> parsed[bad] is Err,
        forall|i: int| 0 <= i < bad ==> (#[trigger] parsed[i]) is Ok,
    ensures
        bad < parsed.len() ==> all_nets(parsed) == Err::<Seq<IpNet>, Seq<char>>(
            parsed[bad]->Err_0.token@,
        ),
        bad == parsed.len() ==> (all_nets(parsed) matches Ok(nets) && nets.len() == parsed.len()
            && forall|i: int|
            0 <= i < nets.len() ==> #[trigger] nets[i] == parsed[i]->Ok_0),
    decreases parsed.len(),
{
    if parsed.len() > 0 {
        let before = parsed.drop_last();
        assert forall|i: int| 0 <= i < bad && i < before.len() implies (
        #[trigger] before[i]) is Ok by {
            assert(before[i] == parsed[i]);
        }
        if bad < before.len() {
            assert(before[bad] == parsed[bad]);
            readings_are_collected_in_order(before, bad);
        } else {
            readings_are_collected_in_order(before, before.len() as int);
            if bad == parsed.len() {
                assert(parsed[parsed.len() - 1] is Ok);
            }
        }
    }
}

proof fn lemma_slashes(head: Seq<char>, count: nat)
    requires
        head.len() > 0 ==> head.last() != '/',
    ensures
        without_slashes(head + Seq::new(count, |i: int| '/')) == head,
    decreases count,
{
    let slashes = Seq::new(count, |i: int| '/');
    let whole = head + slashes;
    if count == 0 {
        assert(whole == head);
    } else {
        let less = (count - 1) as nat;
        lemma_slashes(head, less);
        assert(whole.last() == '/');
        assert(whole.drop_last() == head + Seq::new(less, |i: int| '/'));
    }
}

/// Requests are sent to the base address without any of the slashes at its end, with
/// the path of the chat completions behind it.
pub proof fn requests_go_to_the_base_address(head: Seq<char>, count: nat)
    requires
        head.len() > 0 ==> head.last() != '/',
    ensures
        completions_url(head + Seq::new(count, |i: int| '/')) == head + "/v1/chat/completions"@,
{
    lemma_slashes(head, count);
}

/// What a reading of networks and an error of the settings stand for is what they
/// hold.
pub proof fn errors_show_their_fields(
    nets: Vec<IpNet>,
    bad: CidrError,
    name: String,
    raw: String,
)
    ensures
        nets_view(Ok(nets)) == Ok::<Seq<IpNet>, Seq<char>>(nets@),
        nets_view(Err(bad)) == Err::<Seq<IpNet>, Seq<char>>(bad.token@),
        (ConfigError::InvalidBool { name, raw })@ == (ConfigErrorView::InvalidBool {
            name: name@,
            raw: raw@,
        }),
        ConfigError::InvalidCidr(bad)@ == (ConfigErrorView::InvalidCidr { token: bad.token@ }),
{
}

} // verus!
