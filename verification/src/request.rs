//! From a request to the models that it is sent to.

use axum::http::{HeaderMap, HeaderValue};
use serde_json::Value;
use vstd::prelude::*;
use vstd::seq_lib::to_multiset_insert;
use vstd::set_lib::lemma_len_subset;

use crate::client::{client_key, derive_sticky_key, opt_addr, requester};
use crate::config::Nanos;
use crate::error::{invalid_request, openai_error_response, server_error, ErrorReply, ErrorView};
use crate::headers::{field_text, header_values};
use crate::json::{json_parse, json_view, member, parse_json, JsonView};
use crate::models::{
    alias_is_not_eligible, autopilot_alias, is_tee_eligible, list_refusal,
    parse_model_preference_list, preference_items, routing_mode, routing_mode_for_model,
    tee_eligible, RoutingMode, TeeAllowlist,
};
use crate::net::ClientAddr;
use crate::state::{candidate_names, first_position, same_but_sticky, AppState};
use crate::sticky::{unexpired, StickyView};
use crate::text::{decimal, join, joined, opt_text, texts};

verus! {

/// Why the body of a request could not be had.
#[derive(Clone, Copy, Debug, PartialEq, Eq, Structural)]
pub enum BodyError {
    /// It is longer than the settings allow.
    TooLarge,
    /// Reading it failed.
    Unreadable,
}

/// The answer to a request whose body could not be had.
pub open spec fn body_refusal(error: BodyError) -> ErrorView {
    match error {
        BodyError::TooLarge => invalid_request(
            413,
            "request body too large"@,
            None,
            "request_too_large"@,
        ),
        BodyError::Unreadable => invalid_request(
            400,
            "failed to read request body"@,
            None,
            "invalid_body"@,
        ),
    }
}

/// The answer to a request whose body could not be had.
pub fn refuse_body(error: BodyError) -> (r: ErrorReply)
    ensures
        r@ == body_refusal(error),
{
    match error {
        BodyError::TooLarge => openai_error_response(
            413,
            "invalid_request_error",
            "request body too large",
            None,
            Some("request_too_large"),
        ),
        BodyError::Unreadable => openai_error_response(
            400,
            "invalid_request_error",
            "failed to read request body",
            None,
            Some("invalid_body"),
        ),
    }
}

/// The model that a body names, or the answer to a body that names none.
pub open spec fn named_model(body: JsonView) -> Result<Seq<char>, ErrorView> {
    match body {
        JsonView::Object(members) => if members.contains_key("model"@) {
            match members["model"@] {
                JsonView::Str(model) => Ok(model),
                _ => Err(missing_model()),
            }
        } else {
            Err(missing_model())
        },
        _ => Err(
            invalid_request(400, "request body must be a JSON object"@, None, "invalid_body"@),
        ),
    }
}

pub open spec fn missing_model() -> ErrorView {
    invalid_request(400, "missing required field: model"@, Some("model"@), "missing_model"@)
}

/// The model that a body names.
pub fn request_model(body: &Value) -> (r: Result<String, ErrorReply>)
    ensures
        match r {
            Ok(model) => named_model(json_view(*body)) == Ok::<Seq<char>, ErrorView>(model@),
            Err(e) => named_model(json_view(*body)) == Err::<Seq<char>, ErrorView>(e@),
        },
{
    if !body.is_object() {
        return Err(
            openai_error_response(
                400,
                "invalid_request_error",
                "request body must be a JSON object",
                None,
                Some("invalid_body"),
            ),
        );
    }
    let model = match member(body, "model") {
        Some(value) => value.as_str(),
        None => None,
    };
    match model {
        Some(text) => Ok(text.to_owned()),
        None => Err(
            openai_error_response(
                400,
                "invalid_request_error",
                "missing required field: model",
                Some("model"),
                Some("missing_model"),
            ),
        ),
    }
}

/// A request as read: its body and the model that this names.
pub struct ReadRequest {
    pub body: Value,
    pub model: String,
}

/// What a request says, given what reading its body as JSON gave: the body and
/// the model that it names, or the answer to a body that is not usable.
pub open spec fn request_of(parsed: Option<JsonView>) -> Result<(JsonView, Seq<char>), ErrorView> {
    match parsed {
        None => Err(invalid_request(400, "invalid JSON body"@, None, "invalid_json"@)),
        Some(body) => match named_model(body) {
            Ok(model) => Ok((body, model)),
            Err(e) => Err(e),
        },
    }
}

/// What a request says, given what reading its body as JSON gave.
pub fn accept_body<E>(parsed: Result<Value, E>) -> (r: Result<ReadRequest, ErrorReply>)
    ensures
        read_view(r) == request_of(
            (match parsed {
                Ok(body) => Some(json_view(body)),
                Err(_) => None,
            }),
        ),
{
    match parsed {
        Ok(body) => match request_model(&body) {
            Ok(model) => Ok(ReadRequest { body, model }),
            Err(e) => Err(e),
        },
        Err(_) => Err(
            openai_error_response(
                400,
                "invalid_request_error",
                "invalid JSON body",
                None,
                Some("invalid_json"),
            ),
        ),
    }
}

pub open spec fn read_view(r: Result<ReadRequest, ErrorReply>) -> Result<
    (JsonView, Seq<char>),
    ErrorView,
> {
    match r {
        Ok(request) => Ok((json_view(request.body), request.model@)),
        Err(e) => Err(e@),
    }
}

/// What a request with the given body says.
pub fn read_request(body: &[u8]) -> (r: Result<ReadRequest, ErrorReply>)
    ensures
        read_view(r) == request_of(json_parse(body@)),
{
    accept_body(parse_json(body))
}

/// The models among `models` that may not be used, in their order.
pub open spec fn ineligible(models: Seq<Seq<char>>, allowlist: Set<Seq<char>>) -> Seq<Seq<char>>
    decreases models.len(),
{
    if models.len() == 0 {
        Seq::empty()
    } else {
        let before = ineligible(models.drop_last(), allowlist);
        if tee_eligible(models.last(), allowlist) {
            before
        } else {
            before.push(models.last())
        }
    }
}

/// The answer to a request for models that may not all be used: nothing where
/// all of them may.
pub open spec fn tee_refusal(models: Seq<Seq<char>>, allowlist: Set<Seq<char>>) -> Option<
    ErrorView,
> {
    let refused = ineligible(models, allowlist);
    if refused.len() == 0 {
        None
    } else {
        Some(
            invalid_request(
                400,
                if models.len() == 1 {
                    "model is not TEE-eligible"@
                } else {
                    "model list contains non-TEE model(s): "@ + join(refused, ", "@)
                },
                Some("model"@),
                "model_not_tee"@,
            ),
        )
    }
}

/// The answer to a request for models that may not all be used.
pub fn refuse_ineligible(models: &Vec<String>, tee_allowlist: &TeeAllowlist) -> (r: Option<
    ErrorReply,
>)
    ensures
        match r {
            Some(e) => tee_refusal(texts(models@), tee_allowlist@) == Some(e@),
            None => tee_refusal(texts(models@), tee_allowlist@) is None,
        },
{
    let ghost all = texts(models@);
    let mut refused: Vec<String> = Vec::new();
    let mut i: usize = 0;
    assert(texts(refused@) == ineligible(all.take(0), tee_allowlist@));
    while i < models.len()
        invariant
            i <= models@.len(),
            all == texts(models@),
            texts(refused@) == ineligible(all.take(i as int), tee_allowlist@),
        decreases models@.len() - i,
    {
        let ghost before = refused@;
        assert(all.take(i + 1).drop_last() == all.take(i as int));
        assert(all.take(i + 1).last() == models@[i as int]@);
        if !is_tee_eligible(models[i].as_str(), tee_allowlist) {
            refused.push(models[i].clone());
            assert(texts(refused@) == texts(before).push(models@[i as int]@));
        }
        i += 1;
    }
    assert(all.take(all.len() as int) == all);
    if refused.len() == 0 {
        return None;
    }
    let message = if models.len() == 1 {
        "model is not TEE-eligible".to_owned()
    } else {
        let mut text = "model list contains non-TEE model(s): ".to_owned();
        text.append(joined(&refused, ", ").as_str());
        text
    };
    Some(
        openai_error_response(
            400,
            "invalid_request_error",
            message.as_str(),
            Some("model"),
            Some("model_not_tee"),
        ),
    )
}

/// The answer to a request for one model that the allowlist does not name.
pub open spec fn unknown_model(model: Seq<char>) -> ErrorView {
    invalid_request(400, "unknown model: "@ + model, Some("model"@), "unknown_model"@)
}

/// The answer to a request for one model that the allowlist does not name.
pub fn refuse_unknown_model(model: &str) -> (r: ErrorReply)
    ensures
        r@ == unknown_model(model@),
{
    let mut message = "unknown model: ".to_owned();
    message.append(model);
    openai_error_response(
        400,
        "invalid_request_error",
        message.as_str(),
        Some("model"),
        Some("unknown_model"),
    )
}

pub open spec fn no_candidates() -> ErrorView {
    server_error(503, "no eligible candidates available"@, Some("model"@), "no_candidates"@)
}

/// The answer to a request for which there is no model.
pub fn refuse_without_candidates() -> (r: ErrorReply)
    ensures
        r@ == no_candidates(),
{
    openai_error_response(
        503,
        "server_error",
        "no eligible candidates available",
        Some("model"),
        Some("no_candidates"),
    )
}

/// The models that a request which names models itself asks for, or the answer to
/// a list that is refused.
pub open spec fn requested_models(model: Seq<char>, max_items: nat) -> Result<
    Seq<Seq<char>>,
    ErrorView,
> {
    if routing_mode(model) == RoutingMode::Direct {
        Ok(seq![model])
    } else {
        match list_refusal(model, max_items) {
            Some(message) => Err(
                invalid_request(400, message, Some("model"@), "invalid_model_list"@),
            ),
            None => Ok(preference_items(model)),
        }
    }
}

/// The answer to a request that names models which may not all be used: nothing
/// where all of them may. Where there is an allowlist, a request for one model that
/// is not on it asks for an unknown model.
pub open spec fn model_refusal(
    model: Seq<char>,
    models: Seq<Seq<char>>,
    allowlist: Set<Seq<char>>,
) -> Option<ErrorView> {
    match tee_refusal(models, allowlist) {
        Some(_) if routing_mode(model) == RoutingMode::Direct && allowlist
            != Set::<Seq<char>>::empty() => Some(unknown_model(model)),
        refusal => refusal,
    }
}

/// The models to try for a request, in order, or the answer to a request that is
/// not served. The alias stands for the ranked candidates; models that the request
/// names itself are tried as it names them, if all of them may be used.
pub open spec fn models_to_try(state: AppState, model: Seq<char>) -> Result<
    Seq<Seq<char>>,
    ErrorView,
> {
    if routing_mode(model) == RoutingMode::AutoPilotAlias {
        let ranked = candidate_names(state.runtime.candidates@);
        if ranked.len() == 0 {
            Err(no_candidates())
        } else {
            Ok(ranked)
        }
    } else {
        match requested_models(model, state.config.max_model_list_items as nat) {
            Err(e) => Err(e),
            Ok(models) => match model_refusal(model, models, state.runtime.tee_allowlist@) {
                Some(e) => Err(e),
                None => Ok(models),
            },
        }
    }
}

pub open spec fn models_view(r: Result<Vec<String>, ErrorReply>) -> Result<
    Seq<Seq<char>>,
    ErrorView,
> {
    match r {
        Ok(models) => Ok(texts(models@)),
        Err(e) => Err(e@),
    }
}

/// The models to try for a request, in order.
pub fn candidates_for_model(state: &AppState, model: &str) -> (r: Result<Vec<String>, ErrorReply>)
    ensures
        models_view(r) == models_to_try(*state, model@),
{
    let mode = routing_mode_for_model(model);
    let candidates = match mode {
        RoutingMode::AutoPilotAlias => state.candidate_models(),
        RoutingMode::Direct => {
            let mut models: Vec<String> = Vec::new();
            models.push(model.to_owned());
            assert(texts(models@) == seq![model@]);
            models
        },
        RoutingMode::ExplicitModelList => match parse_model_preference_list(
            model,
            state.config.max_model_list_items,
        ) {
            Ok(models) => models,
            Err(e) => {
                return Err(
                    openai_error_response(
                        400,
                        "invalid_request_error",
                        e.message.as_str(),
                        Some("model"),
                        Some(e.code.as_str()),
                    ),
                );
            },
        },
    };
    if mode != RoutingMode::AutoPilotAlias {
        if let Some(e) = refuse_ineligible(&candidates, state.tee_allowlist()) {
            if mode == RoutingMode::Direct && !state.tee_allowlist().is_empty() {
                return Err(refuse_unknown_model(model));
            }
            return Err(e);
        }
    }
    if candidates.len() == 0 {
        return Err(refuse_without_candidates());
    }
    Ok(candidates)
}

/// The candidates with the model `first` in front, where it is one of them.
pub open spec fn with_first(candidates: Seq<Seq<char>>, first: Seq<char>) -> Seq<Seq<char>> {
    if candidates.contains(first) {
        seq![first] + candidates.remove(candidates.index_of_first(first)->0)
    } else {
        candidates
    }
}

/// The candidates in the order in which a client tries them: the model that it
/// sticks to, where that is a candidate, and then the others.
pub open spec fn preferred(
    table: Map<Seq<char>, StickyView>,
    key: Seq<char>,
    candidates: Seq<Seq<char>>,
) -> Seq<Seq<char>> {
    if table.contains_key(key) {
        with_first(candidates, table[key].model)
    } else {
        candidates
    }
}

/// The models that clients stick to, once a client asked for candidates: a client
/// that sticks to another model than these sticks to none.
pub open spec fn table_with_candidates(
    table: Map<Seq<char>, StickyView>,
    key: Seq<char>,
    candidates: Seq<Seq<char>>,
) -> Map<Seq<char>, StickyView> {
    if table.contains_key(key) && !candidates.contains(table[key].model) {
        table.remove(key)
    } else {
        table
    }
}

/// Puts the model that a client sticks to in front of the candidates.
pub fn prefer_sticky_model(
    state: &mut AppState,
    key: &str,
    candidates: Vec<String>,
    now: Nanos,
) -> (r: Vec<String>)
    ensures
        same_but_sticky(*old(state), *final(state)),
        ({
            let table = unexpired(
                old(state).runtime.sticky_models@,
                old(state).config.sticky_ttl as nat,
                now as nat,
            );
            &&& texts(r@) == preferred(table, key@, texts(candidates@))
            &&& final(state).runtime.sticky_models@ == table_with_candidates(
                table,
                key@,
                texts(candidates@),
            )
        }),
{
    let sticky = match state.sticky_model(key, now) {
        Some(model) => model,
        None => {
            return candidates;
        },
    };
    match first_position(&candidates, sticky.as_str()) {
        Some(i) => {
            let ghost all = texts(candidates@);
            let mut ordered = candidates;
            let model = ordered.remove(i);
            assert(texts(ordered@) == all.remove(i as int));
            ordered.insert(0, model);
            assert(texts(ordered@) == seq![sticky@] + all.remove(i as int));
            ordered
        },
        None => {
            state.clear_sticky_model(key);
            candidates
        },
    }
}

/// Where a request goes.
pub struct Route {
    /// The models to try, in order.
    pub candidates: Vec<String>,
    /// Whether the answer names the model that gave it.
    pub add_selected_header: bool,
    /// The key under which the client's model is remembered.
    pub client_key: Option<String>,
}

pub struct RouteView {
    pub candidates: Seq<Seq<char>>,
    pub add_selected_header: bool,
    pub client_key: Option<Seq<char>>,
}

impl View for Route {
    type V = RouteView;

    open spec fn view(&self) -> RouteView {
        RouteView {
            candidates: texts(self.candidates@),
            add_selected_header: self.add_selected_header,
            client_key: opt_text(self.client_key),
        }
    }
}

/// Whether the gateway chooses the model, so that it says which one it chose and
/// remembers it for the client.
pub open spec fn chooses_model(model: Seq<char>) -> bool {
    routing_mode(model) != RoutingMode::Direct
}

/// Where a request for a model goes. The key counts only where the gateway
/// chooses the model.
pub open spec fn route_of(
    state: AppState,
    model: Seq<char>,
    key: Option<Seq<char>>,
    now: nat,
) -> Result<RouteView, ErrorView> {
    match models_to_try(state, model) {
        Err(e) => Err(e),
        Ok(candidates) => Ok(
            if chooses_model(model) && key is Some {
                RouteView {
                    candidates: preferred(
                        unexpired(
                            state.runtime.sticky_models@,
                            state.config.sticky_ttl as nat,
                            now,
                        ),
                        key->0,
                        candidates,
                    ),
                    add_selected_header: true,
                    client_key: key,
                }
            } else {
                RouteView {
                    candidates,
                    add_selected_header: chooses_model(model),
                    client_key: None,
                }
            },
        ),
    }
}

/// The models that clients stick to, once a request was routed. A request that is
/// refused, or for which no key counts, changes nothing.
pub open spec fn table_after_routing(
    state: AppState,
    model: Seq<char>,
    key: Option<Seq<char>>,
    now: nat,
) -> Map<Seq<char>, StickyView> {
    match models_to_try(state, model) {
        Ok(candidates) if chooses_model(model) && key is Some => table_with_candidates(
            unexpired(state.runtime.sticky_models@, state.config.sticky_ttl as nat, now),
            key->0,
            candidates,
        ),
        _ => state.runtime.sticky_models@,
    }
}

pub open spec fn route_view(r: Result<Route, ErrorReply>) -> Result<RouteView, ErrorView> {
    match r {
        Ok(route) => Ok(route@),
        Err(e) => Err(e@),
    }
}

/// Where a request for a model goes.
pub fn route_request(
    state: &mut AppState,
    model: &str,
    key: Option<String>,
    now: Nanos,
) -> (r: Result<Route, ErrorReply>)
    ensures
        same_but_sticky(*old(state), *final(state)),
        route_view(r) == route_of(*old(state), model@, opt_text(key), now as nat),
        final(state).runtime.sticky_models@ == table_after_routing(
            *old(state),
            model@,
            opt_text(key),
            now as nat,
        ),
{
    let candidates = match candidates_for_model(state, model) {
        Ok(candidates) => candidates,
        Err(e) => {
            return Err(e);
        },
    };
    match routing_mode_for_model(model) {
        RoutingMode::Direct => Ok(
            Route { candidates, add_selected_header: false, client_key: None },
        ),
        _ => match key {
            Some(client) => {
                let ordered = prefer_sticky_model(state, client.as_str(), candidates, now);
                Ok(
                    Route {
                        candidates: ordered,
                        add_selected_header: true,
                        client_key: Some(client),
                    },
                )
            },
            None => Ok(Route { candidates, add_selected_header: true, client_key: None }),
        },
    }
}

/// A request that is to be sent on: its body and where it goes.
pub struct ProxyRequest {
    pub body: Value,
    pub route: Route,
}

/// The body of a request, if it was read and is no longer than the settings allow.
pub open spec fn usable_body(state: AppState, body: Result<Seq<u8>, BodyError>) -> Result<
    Seq<u8>,
    BodyError,
> {
    match body {
        Ok(bytes) if bytes.len() > state.config.max_request_bytes => Err(BodyError::TooLarge),
        _ => body,
    }
}

/// What becomes of a request: its body and where it goes, or the answer to a
/// request that is not sent on.
pub open spec fn proxied(
    state: AppState,
    body: Result<Seq<u8>, BodyError>,
    key: Option<Seq<char>>,
    now: nat,
) -> Result<(JsonView, RouteView), ErrorView> {
    match usable_body(state, body) {
        Err(e) => Err(body_refusal(e)),
        Ok(bytes) => match request_of(json_parse(bytes)) {
            Err(e) => Err(e),
            Ok((json, model)) => match route_of(state, model, key, now) {
                Err(e) => Err(e),
                Ok(route) => Ok((json, route)),
            },
        },
    }
}

/// The models that clients stick to, once a request was looked at.
pub open spec fn table_after_request(
    state: AppState,
    body: Result<Seq<u8>, BodyError>,
    key: Option<Seq<char>>,
    now: nat,
) -> Map<Seq<char>, StickyView> {
    match usable_body(state, body) {
        Err(_) => state.runtime.sticky_models@,
        Ok(bytes) => match request_of(json_parse(bytes)) {
            Err(_) => state.runtime.sticky_models@,
            Ok((_, model)) => table_after_routing(state, model, key, now),
        },
    }
}

pub open spec fn body_view(body: Result<Vec<u8>, BodyError>) -> Result<Seq<u8>, BodyError> {
    match body {
        Ok(bytes) => Ok(bytes@),
        Err(e) => Err(e),
    }
}

pub open spec fn proxied_view(r: Result<ProxyRequest, ErrorReply>) -> Result<
    (JsonView, RouteView),
    ErrorView,
> {
    match r {
        Ok(request) => Ok((json_view(request.body), request.route@)),
        Err(e) => Err(e@),
    }
}

/// The key under which the client of a request is remembered.
pub open spec fn request_key(
    state: AppState,
    fields: Map<Seq<char>, Seq<Seq<u8>>>,
    forwarded: Option<ClientAddr>,
    peer: Option<ClientAddr>,
) -> Option<Seq<char>> {
    client_key(
        field_text(fields, "authorization"@),
        requester(state.config, forwarded, peer),
    )
}

/// Takes a request for a chat completion. `forwarded` is the address that the
/// request says it was first sent from, `peer` the one that it came in from.
pub fn chat_completions(
    state: &mut AppState,
    forwarded: Option<&ClientAddr>,
    peer: Option<&ClientAddr>,
    headers: &HeaderMap<HeaderValue>,
    body: Result<Vec<u8>, BodyError>,
    now: Nanos,
) -> (r: Result<ProxyRequest, ErrorReply>)
    ensures
        same_but_sticky(*old(state), *final(state)),
        ({
            let key = request_key(
                *old(state),
                header_values(*headers),
                opt_addr(forwarded),
                opt_addr(peer),
            );
            &&& proxied_view(r) == proxied(*old(state), body_view(body), key, now as nat)
            &&& final(state).runtime.sticky_models@ == table_after_request(
                *old(state),
                body_view(body),
                key,
                now as nat,
            )
        }),
{
    let bytes = match body {
        Ok(bytes) => bytes,
        Err(e) => {
            return Err(refuse_body(e));
        },
    };
    if bytes.len() > state.config.max_request_bytes {
        return Err(refuse_body(BodyError::TooLarge));
    }
    let request = match read_request(bytes.as_slice()) {
        Ok(request) => request,
        Err(e) => {
            return Err(e);
        },
    };
    let key = derive_sticky_key(&state.config, headers, forwarded, peer);
    match route_request(state, request.model.as_str(), key, now) {
        Ok(route) => Ok(ProxyRequest { body: request.body, route }),
        Err(e) => Err(e),
    }
}

/// A client tries the same candidates as any other, in an order of its own: the
/// model that it sticks to comes first, and the others keep their order.
pub proof fn preference_only_reorders(
    table: Map<Seq<char>, StickyView>,
    key: Seq<char>,
    candidates: Seq<Seq<char>>,
)
    ensures
        preferred(table, key, candidates).to_multiset() == candidates.to_multiset(),
        preferred(table, key, candidates).len() == candidates.len(),
        table.contains_key(key) && candidates.contains(table[key].model) ==> {
            let i = candidates.index_of_first(table[key].model)->0;
            &&& preferred(table, key, candidates)[0] == table[key].model
            &&& preferred(table, key, candidates).drop_first() == candidates.remove(i)
        },
{
    if table.contains_key(key) && candidates.contains(table[key].model) {
        let first = table[key].model;
        candidates.index_of_first_ensures(first);
        let i = candidates.index_of_first(first)->0;
        let rest = candidates.remove(i);
        let ordered = seq![first] + rest;
        candidates.to_multiset_ensures();
        assert(ordered == rest.insert(0, first));
        to_multiset_insert(rest, 0, first);
        assert(candidates.to_multiset().count(first) > 0);
        assert(ordered.to_multiset() =~= candidates.to_multiset());
        assert(ordered.drop_first() == rest);
    }
}

proof fn lemma_ineligible(models: Seq<Seq<char>>, allowlist: Set<Seq<char>>, i: int)
    requires
        0 <= i < models.len(),
    ensures
        !tee_eligible(models[i], allowlist) <==> ineligible(models, allowlist).contains(models[i]),
    decreases models.len(),
{
    let before = models.drop_last();
    let had = ineligible(before, allowlist);
    let have = ineligible(models, allowlist);
    lemma_ineligible_are(models, allowlist);
    if i == models.len() - 1 {
        if !tee_eligible(models.last(), allowlist) {
            assert(have[had.len() as int] == models[i]);
        }
    } else {
        lemma_ineligible(before, allowlist, i);
        if had.contains(models[i]) {
            let j = choose|j: int| 0 <= j < had.len() && had[j] == models[i];
            assert(have[j] == models[i]);
        }
    }
}

proof fn lemma_ineligible_are(models: Seq<Seq<char>>, allowlist: Set<Seq<char>>)
    ensures
        forall|j: int|
            0 <= j < ineligible(models, allowlist).len() ==> {
                let refused = #[trigger] ineligible(models, allowlist)[j];
                !tee_eligible(refused, allowlist) && models.contains(refused)
            },
    decreases models.len(),
{
    if models.len() > 0 {
        let before = models.drop_last();
        let had = ineligible(before, allowlist);
        let have = ineligible(models, allowlist);
        lemma_ineligible_are(before, allowlist);
        assert forall|j: int| 0 <= j < have.len() implies !tee_eligible(
            #[trigger] have[j],
            allowlist,
        ) && models.contains(have[j]) by {
            if j < had.len() {
                assert(have[j] == had[j]);
                let i = choose|i: int| 0 <= i < before.len() && before[i] == had[j];
                assert(models[i] == have[j]);
            } else {
                assert(models[models.len() - 1] == have[j]);
            }
        }
    }
}

/// A request that names models itself is sent on if and only if all of them may be
/// used; a refusal is told which ones may not.
pub proof fn only_eligible_models_are_tried(models: Seq<Seq<char>>, allowlist: Set<Seq<char>>)
    ensures
        tee_refusal(models, allowlist) is None <==> forall|i: int|
            0 <= i < models.len() ==> tee_eligible(#[trigger] models[i], allowlist),
        forall|i: int|
            0 <= i < models.len() ==> (ineligible(models, allowlist).contains(#[trigger] models[i])
                <==> !tee_eligible(models[i], allowlist)),
{
    assert forall|i: int| 0 <= i < models.len() implies (ineligible(models, allowlist).contains(
        #[trigger] models[i],
    ) <==> !tee_eligible(models[i], allowlist)) by {
        lemma_ineligible(models, allowlist, i);
    }
    let refused = ineligible(models, allowlist);
    if refused.len() > 0 {
        lemma_ineligible_are(models, allowlist);
        assert(models.contains(refused[0]));
        let i = choose|i: int| 0 <= i < models.len() && models[i] == refused[0];
        assert(!tee_eligible(models[i], allowlist));
    } else {
        assert forall|i: int| 0 <= i < models.len() implies tee_eligible(
            #[trigger] models[i],
            allowlist,
        ) by {
            lemma_ineligible(models, allowlist, i);
        }
    }
}

/// A request that is sent on has a model to try, and no more of them than the
/// ranking or the settings allow.
pub proof fn sent_requests_have_candidates(
    state: AppState,
    model: Seq<char>,
    key: Option<Seq<char>>,
    now: nat,
)
    ensures
        route_of(state, model, key, now) matches Ok(route) ==> {
            &&& route.candidates.len() > 0
            &&& routing_mode(model) == RoutingMode::ExplicitModelList ==> route.candidates.len()
                <= state.config.max_model_list_items
            &&& route.add_selected_header == chooses_model(model)
        },
{
    if let Ok(candidates) = models_to_try(state, model) {
        if key is Some {
            preference_only_reorders(
                unexpired(state.runtime.sticky_models@, state.config.sticky_ttl as nat, now),
                key->0,
                candidates,
            );
        }
    }
}

/// A request for one model goes to that model alone. The answer does not name the
/// model, and nothing is remembered of the client.
pub proof fn direct_requests_go_to_their_model(
    state: AppState,
    model: Seq<char>,
    key: Option<Seq<char>>,
    now: nat,
)
    requires
        routing_mode(model) == RoutingMode::Direct,
        tee_eligible(model, state.runtime.tee_allowlist@),
    ensures
        route_of(state, model, key, now) == Ok::<RouteView, ErrorView>(
            RouteView {
                candidates: seq![model],
                add_selected_header: false,
                client_key: None,
            },
        ),
        table_after_routing(state, model, key, now) == state.runtime.sticky_models@,
{
    only_eligible_models_are_tried(seq![model], state.runtime.tee_allowlist@);
    assert forall|i: int| 0 <= i < seq![model].len() implies tee_eligible(
        #[trigger] seq![model][i],
        state.runtime.tee_allowlist@,
    ) by {}
}

/// Where there is an allowlist, a request for one model that is not on it is
/// refused as one for an unknown model, and a list that names such a model is
/// refused too.
pub proof fn unknown_models_are_refused(
    state: AppState,
    model: Seq<char>,
    key: Option<Seq<char>>,
    now: nat,
)
    requires
        state.runtime.tee_allowlist@ != Set::<Seq<char>>::empty(),
    ensures
        routing_mode(model) == RoutingMode::Direct && !state.runtime.tee_allowlist@.contains(model)
            ==> route_of(state, model, key, now) == Err::<RouteView, ErrorView>(
            unknown_model(model),
        ),
        routing_mode(model) == RoutingMode::ExplicitModelList && (exists|i: int|
            0 <= i < preference_items(model).len() && !state.runtime.tee_allowlist@.contains(
                #[trigger] preference_items(model)[i],
            )) ==> route_of(state, model, key, now) is Err,
{
    let allowlist = state.runtime.tee_allowlist@;
    only_eligible_models_are_tried(seq![model], allowlist);
    assert(seq![model][0] == model);
    only_eligible_models_are_tried(preference_items(model), allowlist);
}

/// The alias for automatic selection is never sent to the upstream, as long as
/// neither the ranking nor the allowlist takes it for a model.
pub proof fn alias_is_never_tried(
    state: AppState,
    model: Seq<char>,
    key: Option<Seq<char>>,
    now: nat,
)
    requires
        forall|alias: Seq<char>| #[trigger]
            autopilot_alias(alias) ==> !state.runtime.tee_allowlist@.contains(alias),
        forall|i: int|
            0 <= i < state.runtime.candidates@.len() ==> !autopilot_alias(
                (#[trigger] state.runtime.candidates@[i]).name@,
            ),
    ensures
        route_of(state, model, key, now) matches Ok(route) ==> forall|i: int|
            0 <= i < route.candidates.len() ==> !autopilot_alias(#[trigger] route.candidates[i]),
{
    let allowlist = state.runtime.tee_allowlist@;
    if let Ok(candidates) = models_to_try(state, model) {
        assert forall|i: int| 0 <= i < candidates.len() implies !autopilot_alias(
            #[trigger] candidates[i],
        ) by {
            if routing_mode(model) == RoutingMode::AutoPilotAlias {
                assert(candidates[i] == state.runtime.candidates@[i].name@);
            } else {
                only_eligible_models_are_tried(candidates, allowlist);
                assert(tee_eligible(candidates[i], allowlist));
                if autopilot_alias(candidates[i]) {
                    alias_is_not_eligible(candidates[i], allowlist);
                }
            }
        }
        if key is Some && chooses_model(model) {
            let table = unexpired(
                state.runtime.sticky_models@,
                state.config.sticky_ttl as nat,
                now,
            );
            let ordered = preferred(table, key->0, candidates);
            preference_only_reorders(table, key->0, candidates);
            candidates.to_multiset_ensures();
            ordered.to_multiset_ensures();
            assert forall|i: int| 0 <= i < ordered.len() implies !autopilot_alias(
                #[trigger] ordered[i],
            ) by {
                assert(ordered.contains(ordered[i]));
                assert(ordered.to_multiset().count(ordered[i]) > 0);
                assert(candidates.contains(ordered[i]));
                let j = choose|j: int| 0 <= j < candidates.len() && candidates[j] == ordered[i];
                assert(!autopilot_alias(candidates[j]));
            }
        }
    }
}

/// Routing a request adds no selection, so a table within the cap stays within it.
pub proof fn routing_keeps_the_cap(
    state: AppState,
    body: Result<Seq<u8>, BodyError>,
    key: Option<Seq<char>>,
    now: nat,
)
    requires
        state.runtime.sticky_models@.dom().finite(),
        state.runtime.sticky_models@.dom().len() <= state.config.sticky_max_entries as nat,
    ensures
        table_after_request(state, body, key, now).dom().len()
            <= state.config.sticky_max_entries as nat,
{
    let table = state.runtime.sticky_models@;
    let after = table_after_request(state, body, key, now);
    assert(after.dom().subset_of(table.dom()));
    lemma_len_subset(after.dom(), table.dom());
}

/// A request that is refused leaves the models that clients stick to as they were.
pub proof fn refused_requests_change_nothing(
    state: AppState,
    body: Result<Seq<u8>, BodyError>,
    key: Option<Seq<char>>,
    now: nat,
)
    requires
        proxied(state, body, key, now) is Err,
    ensures
        table_after_request(state, body, key, now) == state.runtime.sticky_models@,
{
}

/// A route, and what stands for it in contracts, hold the same models in the same
/// order, the same announcement and the same key.
pub proof fn routes_show_their_fields(route: Route, i: int)
    ensures
        route@.candidates.len() == route.candidates@.len(),
        0 <= i < route.candidates@.len() ==> route@.candidates[i] == route.candidates@[i]@,
        route@.add_selected_header == route.add_selected_header,
        route.client_key matches Some(key) ==> route@.client_key == Some(key@),
        route.client_key is None ==> route@.client_key is None,
        route_view(Ok(route)) == Ok::<RouteView, ErrorView>(route@),
{
}

/// What a function returns and what its contract says of it are the same: the
/// answer where it refuses, and the models, the request or the body where it does
/// not.
pub proof fn results_show_what_was_returned(
    e: ErrorReply,
    models: Vec<String>,
    request: ReadRequest,
    sent: ProxyRequest,
    bytes: Vec<u8>,
    body_error: BodyError,
)
    ensures
        route_view(Err(e)) == Err::<RouteView, ErrorView>(e@),
        models_view(Err(e)) == Err::<Seq<Seq<char>>, ErrorView>(e@),
        models_view(Ok(models)) == Ok::<Seq<Seq<char>>, ErrorView>(texts(models@)),
        read_view(Err(e)) == Err::<(JsonView, Seq<char>), ErrorView>(e@),
        read_view(Ok(request)) == Ok::<(JsonView, Seq<char>), ErrorView>(
            (json_view(request.body), request.model@),
        ),
        proxied_view(Err(e)) == Err::<(JsonView, RouteView), ErrorView>(e@),
        proxied_view(Ok(sent)) == Ok::<(JsonView, RouteView), ErrorView>(
            (json_view(sent.body), sent.route@),
        ),
        body_view(Ok(bytes)) == Ok::<Seq<u8>, BodyError>(bytes@),
        body_view(Err(body_error)) == Err::<Seq<u8>, BodyError>(body_error),
{
}

/// A request for automatic selection is routed to all ranked candidates, in the
/// order of their ranking, and is refused where there are none.
pub proof fn alias_routes_to_the_whole_ranking(state: AppState, model: Seq<char>, now: nat, i: int)
    requires
        model == "chutesai/AutoPilot"@ || model == "chutesai-routing/AutoPilot"@,
    ensures
        state.runtime.candidates@.len() > 0 ==> {
            &&& route_of(state, model, None, now) matches Ok(route)
            &&& route.candidates.len() == state.runtime.candidates@.len()
            &&& 0 <= i < route.candidates.len() ==> route.candidates[i]
                == state.runtime.candidates@[i].name@
            &&& route.add_selected_header
            &&& route.client_key is None
        },
        state.runtime.candidates@.len() == 0 ==> route_of(state, model, None, now) == Err::<
            RouteView,
            ErrorView,
        >(
            ErrorView {
                status: 503,
                error_type: "server_error"@,
                message: "no eligible candidates available"@,
                param: Some("model"@),
                code: Some("no_candidates"@),
            },
        ),
{
}

/// A request that lists models is routed to the models of its list, in their order,
/// where the list is accepted and all of them may be used.
pub proof fn lists_route_to_their_models(state: AppState, model: Seq<char>, now: nat)
    requires
        model != "chutesai/AutoPilot"@,
        model != "chutesai-routing/AutoPilot"@,
        model.contains(','),
        1 <= preference_items(model).len() <= state.config.max_model_list_items,
        forall|i: int|
            0 <= i < preference_items(model).len() ==> tee_eligible(
                #[trigger] preference_items(model)[i],
                state.runtime.tee_allowlist@,
            ),
    ensures
        route_of(state, model, None, now) matches Ok(route) && route.candidates
            == preference_items(model) && route.add_selected_header && route.client_key is None,
{
    only_eligible_models_are_tried(preference_items(model), state.runtime.tee_allowlist@);
}

/// Where the gateway chooses the model, a client whose selection has not expired and
/// is one of the models to try gets that model first, and the others behind it in
/// the order in which a client without a key gets them. Any other client gets them
/// as a client without a key does. This holds of automatic selection and of lists.
pub proof fn routes_try_the_sticky_model_first(
    state: AppState,
    model: Seq<char>,
    key: Seq<char>,
    now: nat,
    i: int,
)
    requires
        model == "chutesai/AutoPilot"@ || model == "chutesai-routing/AutoPilot"@ || model.contains(
            ',',
        ),
        route_of(state, model, None, now) is Ok,
    ensures
        ({
            let table = state.runtime.sticky_models@;
            let plain = route_of(state, model, None, now)->Ok_0.candidates;
            let alive = table.contains_key(key) && state.config.sticky_ttl > 0 && now
                <= table[key].last_used_at + state.config.sticky_ttl;
            &&& route_of(state, model, Some(key), now) matches Ok(route)
            &&& route.client_key == Some(key)
            &&& route.add_selected_header
            &&& alive && 0 <= i < plain.len() && plain[i] == table[key].model && (forall|j: int|
                0 <= j < i ==> #[trigger] plain[j] != plain[i]) ==> route.candidates == seq![
                plain[i],
            ] + plain.take(i) + plain.skip(i + 1)
            &&& !alive || !plain.contains(table[key].model) ==> route.candidates == plain
        }),
{
    let table = state.runtime.sticky_models@;
    let plain = route_of(state, model, None, now)->Ok_0.candidates;
    if table.contains_key(key) && 0 <= i < plain.len() && plain[i] == table[key].model && (forall|
        j: int,
    |
        0 <= j < i ==> #[trigger] plain[j] != plain[i]) {
        plain.index_of_first_ensures(plain[i]);
        assert(plain.contains(plain[i]));
        let first = plain.index_of_first(plain[i])->0;
        assert(plain[first] == plain[i]);
        assert(first == i);
        assert(seq![plain[i]] + plain.remove(i) == seq![plain[i]] + plain.take(i) + plain.skip(
            i + 1,
        ));
    }
}

/// Without a key, the models of a route are the models to try, and a request is
/// refused as the choice of models is. A key does not decide whether a request is
/// routed, and does not count where the request names one model.
pub proof fn keys_do_not_decide_what_is_routed(
    state: AppState,
    model: Seq<char>,
    key: Option<Seq<char>>,
    now: nat,
)
    ensures
        models_to_try(state, model) == (match route_of(state, model, None, now) {
            Ok(route) => Ok::<Seq<Seq<char>>, ErrorView>(route.candidates),
            Err(e) => Err(e),
        }),
        route_of(state, model, None, now) is Err ==> route_of(state, model, key, now) == route_of(
            state,
            model,
            None,
            now,
        ),
        model != "chutesai/AutoPilot"@ && model != "chutesai-routing/AutoPilot"@
            && !model.contains(',') ==> route_of(state, model, key, now) == route_of(
            state,
            model,
            None,
            now,
        ),
{
}

/// Routing a request for a client with a key, where the gateway chooses the model,
/// drops the selections that have expired and keeps the others, but for the
/// client's own where its model is none of the models to try. Any other request
/// leaves all selections alone.
pub proof fn routing_drops_only_useless_selections(
    state: AppState,
    model: Seq<char>,
    key: Option<Seq<char>>,
    now: nat,
    other: Seq<char>,
)
    ensures
        ({
            let table = state.runtime.sticky_models@;
            let after = table_after_routing(state, model, key, now);
            let alive = table.contains_key(other) && state.config.sticky_ttl > 0 && now
                <= table[other].last_used_at + state.config.sticky_ttl;
            let chosen = model == "chutesai/AutoPilot"@ || model == "chutesai-routing/AutoPilot"@
                || model.contains(',');
            &&& after.contains_key(other) ==> table.contains_key(other) && after[other]
                == table[other]
            &&& key is None || !chosen ==> after == table
            &&& route_of(state, model, None, now) is Err ==> after == table
            &&& key matches Some(k) ==> chosen ==> (route_of(state, model, None, now) matches Ok(
                plain,
            ) ==> (after.contains_key(other) <==> alive && (other != k
                || plain.candidates.contains(table[other].model))))
        }),
{
}

/// A body that was not read, or is longer than the settings allow, is refused; one
/// that is no longer than that is not refused for its length.
pub proof fn bodies_are_limited_in_length(
    state: AppState,
    bytes: Seq<u8>,
    key: Option<Seq<char>>,
    now: nat,
)
    ensures
        bytes.len() > state.config.max_request_bytes ==> proxied(state, Ok(bytes), key, now) == Err::<
            (JsonView, RouteView),
            ErrorView,
        >(
            ErrorView {
                status: 413,
                error_type: "invalid_request_error"@,
                message: "request body too large"@,
                param: None,
                code: Some("request_too_large"@),
            },
        ),
        bytes.len() <= state.config.max_request_bytes ==> usable_body(state, Ok(bytes)) == Ok::<
            Seq<u8>,
            BodyError,
        >(bytes),
        proxied(state, Err(BodyError::TooLarge), key, now) == Err::<
            (JsonView, RouteView),
            ErrorView,
        >(
            ErrorView {
                status: 413,
                error_type: "invalid_request_error"@,
                message: "request body too large"@,
                param: None,
                code: Some("request_too_large"@),
            },
        ),
        proxied(state, Err(BodyError::Unreadable), key, now) == Err::<
            (JsonView, RouteView),
            ErrorView,
        >(
            ErrorView {
                status: 400,
                error_type: "invalid_request_error"@,
                message: "failed to read request body"@,
                param: None,
                code: Some("invalid_body"@),
            },
        ),
{
}

/// A body of usable length is routed by the text of its member `model`, and is sent
/// on as it is. It is refused where it is no JSON, no object, or has no such text.
pub proof fn bodies_are_routed_by_their_model(
    state: AppState,
    bytes: Seq<u8>,
    key: Option<Seq<char>>,
    now: nat,
)
    requires
        bytes.len() <= state.config.max_request_bytes,
    ensures
        json_parse(bytes) is None ==> proxied(state, Ok(bytes), key, now) == Err::<
            (JsonView, RouteView),
            ErrorView,
        >(
            ErrorView {
                status: 400,
                error_type: "invalid_request_error"@,
                message: "invalid JSON body"@,
                param: None,
                code: Some("invalid_json"@),
            },
        ),
        json_parse(bytes) matches Some(json) ==> json !is Object ==> proxied(
            state,
            Ok(bytes),
            key,
            now,
        ) == Err::<(JsonView, RouteView), ErrorView>(
            ErrorView {
                status: 400,
                error_type: "invalid_request_error"@,
                message: "request body must be a JSON object"@,
                param: None,
                code: Some("invalid_body"@),
            },
        ),
        json_parse(bytes) matches Some(JsonView::Object(members)) ==> !(members.contains_key(
            "model"@,
        ) && members["model"@] is Str) ==> proxied(state, Ok(bytes), key, now) == Err::<
            (JsonView, RouteView),
            ErrorView,
        >(
            ErrorView {
                status: 400,
                error_type: "invalid_request_error"@,
                message: "missing required field: model"@,
                param: Some("model"@),
                code: Some("missing_model"@),
            },
        ),
        json_parse(bytes) matches Some(JsonView::Object(members)) ==> members.contains_key(
            "model"@,
        ) ==> (members["model"@] matches JsonView::Str(model) ==> {
            &&& proxied(state, Ok(bytes), key, now) == (match route_of(state, model, key, now) {
                Ok(route) => Ok::<(JsonView, RouteView), ErrorView>(
                    (JsonView::Object(members), route),
                ),
                Err(e) => Err(e),
            })
            &&& table_after_request(state, Ok(bytes), key, now) == table_after_routing(
                state,
                model,
                key,
                now,
            )
        }),
{
}

/// A body says the same to the function that reads it alone: what it names as its
/// model, and what it is told where it names none.
pub proof fn bodies_name_their_model(json: JsonView)
    ensures
        request_of(None) == Err::<(JsonView, Seq<char>), ErrorView>(
            ErrorView {
                status: 400,
                error_type: "invalid_request_error"@,
                message: "invalid JSON body"@,
                param: None,
                code: Some("invalid_json"@),
            },
        ),
        request_of(Some(json)) == (match named_model(json) {
            Ok(model) => Ok::<(JsonView, Seq<char>), ErrorView>((json, model)),
            Err(e) => Err(e),
        }),
        json !is Object ==> named_model(json) == Err::<Seq<char>, ErrorView>(
            ErrorView {
                status: 400,
                error_type: "invalid_request_error"@,
                message: "request body must be a JSON object"@,
                param: None,
                code: Some("invalid_body"@),
            },
        ),
        json matches JsonView::Object(members) ==> !(members.contains_key("model"@)
            && members["model"@] is Str) ==> named_model(json) == Err::<Seq<char>, ErrorView>(
            ErrorView {
                status: 400,
                error_type: "invalid_request_error"@,
                message: "missing required field: model"@,
                param: Some("model"@),
                code: Some("missing_model"@),
            },
        ),
        json matches JsonView::Object(members) ==> members.contains_key("model"@) ==> (
        members["model"@] matches JsonView::Str(model) ==> named_model(json) == Ok::<
            Seq<char>,
            ErrorView,
        >(model)),
{
}

proof fn lemma_ineligible_is_a_filter(models: Seq<Seq<char>>, allowlist: Set<Seq<char>>)
    ensures
        ineligible(models, allowlist) == models.filter(
            |m: Seq<char>| !tee_eligible(m, allowlist),
        ),
    decreases models.len(),
{
    reveal(Seq::filter);
    if models.len() > 0 {
        lemma_ineligible_is_a_filter(models.drop_last(), allowlist);
    } else {
        assert(models == Seq::<Seq<char>>::empty());
    }
}

/// What a request that names models itself is told where it is refused: that the
/// list is empty or too long, or which of several models may not be used, or that
/// the one model may not be used, or that the allowlist does not know it.
pub proof fn refused_models_are_told_why(state: AppState, model: Seq<char>, now: nat)
    requires
        model != "chutesai/AutoPilot"@,
        model != "chutesai-routing/AutoPilot"@,
    ensures
        ({
            let items = preference_items(model);
            let allowlist = state.runtime.tee_allowlist@;
            let refused = items.filter(|m: Seq<char>| !tee_eligible(m, allowlist));
            let told = |message: Seq<char>, code: Seq<char>|
                Err::<RouteView, ErrorView>(
                    ErrorView {
                        status: 400,
                        error_type: "invalid_request_error"@,
                        message,
                        param: Some("model"@),
                        code: Some(code),
                    },
                );
            let got = route_of(state, model, None, now);
            if model.contains(',') {
                if items.len() == 0 {
                    got == told("model list is empty"@, "invalid_model_list"@)
                } else if items.len() > state.config.max_model_list_items {
                    got == told(
                        "model list exceeds MAX_MODEL_LIST_ITEMS ("@ + decimal(
                            state.config.max_model_list_items as nat,
                        ) + ")"@,
                        "invalid_model_list"@,
                    )
                } else if refused.len() > 0 && items.len() == 1 {
                    got == told("model is not TEE-eligible"@, "model_not_tee"@)
                } else if refused.len() > 0 {
                    got == told(
                        "model list contains non-TEE model(s): "@ + join(refused, ", "@),
                        "model_not_tee"@,
                    )
                } else {
                    got is Ok
                }
            } else if tee_eligible(model, allowlist) {
                got is Ok
            } else if allowlist == Set::<Seq<char>>::empty() {
                got == told("model is not TEE-eligible"@, "model_not_tee"@)
            } else {
                got == told("unknown model: "@ + model, "unknown_model"@)
            }
        }),
{
    let allowlist = state.runtime.tee_allowlist@;
    lemma_ineligible_is_a_filter(preference_items(model), allowlist);
    only_eligible_models_are_tried(seq![model], allowlist);
    assert(seq![model][0] == model);
    if tee_eligible(model, allowlist) {
        assert forall|i: int| 0 <= i < seq![model].len() implies tee_eligible(
            #[trigger] seq![model][i],
            allowlist,
        ) by {}
    }
}

/// The refusal of models that may not all be used is the same wherever it is made:
/// it names them all, in their order.
pub proof fn refusals_name_all_ineligible_models(
    models: Seq<Seq<char>>,
    allowlist: Set<Seq<char>>,
)
    ensures
        ({
            let refused = models.filter(|m: Seq<char>| !tee_eligible(m, allowlist));
            let told = |message: Seq<char>|
                Some(
                    ErrorView {
                        status: 400,
                        error_type: "invalid_request_error"@,
                        message,
                        param: Some("model"@),
                        code: Some("model_not_tee"@),
                    },
                );
            if refused.len() == 0 {
                tee_refusal(models, allowlist) is None
            } else if models.len() == 1 {
                tee_refusal(models, allowlist) == told("model is not TEE-eligible"@)
            } else {
                tee_refusal(models, allowlist) == told(
                    "model list contains non-TEE model(s): "@ + join(refused, ", "@),
                )
            }
        }),
{
    lemma_ineligible_is_a_filter(models, allowlist);
}

/// The client of a request is known by its authorization field, and otherwise by
/// the address that it counts as coming from.
pub proof fn requests_are_keyed_by_authorization_or_address(
    state: AppState,
    fields: Map<Seq<char>, Seq<Seq<u8>>>,
    forwarded: Option<ClientAddr>,
    peer: Option<ClientAddr>,
)
    ensures
        request_key(state, fields, forwarded, peer) == client_key(
            field_text(fields, "authorization"@),
            requester(state.config, forwarded, peer),
        ),
{
}

} // verus!
