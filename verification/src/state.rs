//! What the gateway knows between requests: the ranked candidates, the allowlist
//! and the models that clients stick to.

use vstd::prelude::*;
use vstd::set_lib::lemma_len_subset;

use crate::config::{AppConfig, Nanos};
use crate::error::{openai_error_response, ErrorReply, ErrorView};
use crate::models::TeeAllowlist;
use crate::ranking::RankedCandidate;
use crate::sticky::{capped, elapsed, time_since, unexpired, StickyTable, StickyView};
use crate::text::{opt_text, same_text, texts};

verus! {

/// What the gateway learned so far.
pub struct RuntimeState {
    pub candidates: Vec<RankedCandidate>,
    pub tee_allowlist: TeeAllowlist,
    pub snapshot_at: Option<Nanos>,
    pub sticky_models: StickyTable,
}

/// The state of the gateway.
pub struct AppState {
    pub runtime: RuntimeState,
    pub config: AppConfig,
}

/// Whether requests can be served.
#[derive(Clone, Debug)]
pub struct Readiness {
    pub has_candidates: bool,
    pub snapshot_at: Option<Nanos>,
}

/// An answer with a short text.
#[derive(Debug)]
pub struct PlainReply {
    pub status: u16,
    pub body: String,
}

/// The names of ranked candidates, in their order.
pub open spec fn candidate_names(candidates: Seq<RankedCandidate>) -> Seq<Seq<char>> {
    Seq::new(candidates.len(), |i: int| candidates[i].name@)
}

/// Whether two states differ at most in the models that clients stick to.
pub open spec fn same_but_sticky(a: AppState, b: AppState) -> bool {
    &&& a.config == b.config
    &&& a.runtime.candidates == b.runtime.candidates
    &&& a.runtime.tee_allowlist == b.runtime.tee_allowlist
    &&& a.runtime.snapshot_at == b.runtime.snapshot_at
}

/// The models that clients stick to, once a client's model failed: a client that
/// sticks to another model keeps it; otherwise it moves on to the candidate behind
/// the failed one, or sticks to none where there is no such candidate.
pub open spec fn rotated(
    table: Map<Seq<char>, StickyView>,
    key: Seq<char>,
    candidates: Seq<Seq<char>>,
    failed: Seq<char>,
    now: nat,
) -> Map<Seq<char>, StickyView> {
    if !table.contains_key(key) || table[key].model != failed {
        table
    } else if candidates.contains(failed) && candidates.index_of_first(failed)->0 + 1
        < candidates.len() {
        let next = candidates[candidates.index_of_first(failed)->0 + 1];
        table.insert(key, StickyView { model: next, last_used_at: now })
    } else {
        table.remove(key)
    }
}

/// The place where `name` first occurs.
pub(crate) fn first_position(names: &Vec<String>, name: &str) -> (r: Option<usize>)
    ensures
        match r {
            Some(i) => {
                &&& i < names@.len()
                &&& names@[i as int]@ == name@
                &&& texts(names@).contains(name@)
                &&& texts(names@).index_of_first(name@) == Some(i as int)
            },
            None => !texts(names@).contains(name@),
        },
{
    let ghost all = texts(names@);
    let mut i: usize = 0;
    while i < names.len()
        invariant
            i <= names@.len(),
            all == texts(names@),
            forall|j: int| 0 <= j < i ==> all[j] != name@,
        decreases names@.len() - i,
    {
        if same_text(names[i].as_str(), name) {
            proof {
                assert(all[i as int] == name@);
                all.index_of_first_ensures(name@);
            }
            return Some(i);
        }
        i += 1;
    }
    None
}

impl AppState {
    /// A state that knows nothing yet.
    pub fn new(config: AppConfig) -> (r: AppState)
        ensures
            r.config == config,
            r.runtime.candidates@.len() == 0,
            r.runtime.tee_allowlist@ == Set::<Seq<char>>::empty(),
            r.runtime.snapshot_at is None,
            r.runtime.sticky_models@ == Map::<Seq<char>, StickyView>::empty(),
    {
        AppState {
            runtime: RuntimeState {
                candidates: Vec::new(),
                tee_allowlist: TeeAllowlist::new(),
                snapshot_at: None,
                sticky_models: StickyTable::new(),
            },
            config,
        }
    }

    /// Whether there are candidates, and when they were ranked.
    pub fn readiness(&self) -> (r: Readiness)
        ensures
            r.has_candidates == (self.runtime.candidates@.len() > 0),
            r.snapshot_at == self.runtime.snapshot_at,
    {
        Readiness {
            has_candidates: self.runtime.candidates.len() > 0,
            snapshot_at: self.runtime.snapshot_at,
        }
    }

    /// Takes over newly ranked candidates. A failed refresh changes nothing.
    pub fn update_candidate_snapshot<E>(
        &mut self,
        candidates: Result<Vec<RankedCandidate>, E>,
        now: Nanos,
    )
        ensures
            final(self).config == old(self).config,
            final(self).runtime.tee_allowlist == old(self).runtime.tee_allowlist,
            final(self).runtime.sticky_models == old(self).runtime.sticky_models,
            match candidates {
                Ok(ranked) => {
                    &&& final(self).runtime.candidates == ranked
                    &&& final(self).runtime.snapshot_at == Some(now)
                },
                Err(_) => *final(self) == *old(self),
            },
    {
        if let Ok(ranked) = candidates {
            self.runtime.candidates = ranked;
            self.runtime.snapshot_at = Some(now);
        }
    }

    /// Takes over a new allowlist. A failed refresh changes nothing.
    pub fn update_tee_allowlist<E>(&mut self, allowlist: Result<TeeAllowlist, E>)
        ensures
            final(self).config == old(self).config,
            final(self).runtime.candidates == old(self).runtime.candidates,
            final(self).runtime.snapshot_at == old(self).runtime.snapshot_at,
            final(self).runtime.sticky_models == old(self).runtime.sticky_models,
            match allowlist {
                Ok(list) => final(self).runtime.tee_allowlist == list,
                Err(_) => *final(self) == *old(self),
            },
    {
        if let Ok(list) = allowlist {
            self.runtime.tee_allowlist = list;
        }
    }

    /// The allowlist.
    pub fn tee_allowlist(&self) -> (r: &TeeAllowlist)
        ensures
            *r == self.runtime.tee_allowlist,
    {
        &self.runtime.tee_allowlist
    }

    /// The names of the ranked candidates, in their order.
    pub fn candidate_models(&self) -> (r: Vec<String>)
        ensures
            texts(r@) == candidate_names(self.runtime.candidates@),
    {
        let ghost all = candidate_names(self.runtime.candidates@);
        let mut out: Vec<String> = Vec::new();
        let mut i: usize = 0;
        while i < self.runtime.candidates.len()
            invariant
                i <= self.runtime.candidates@.len(),
                all == candidate_names(self.runtime.candidates@),
                texts(out@) == all.take(i as int),
            decreases self.runtime.candidates@.len() - i,
        {
            let ghost before = out@;
            out.push(self.runtime.candidates[i].name.clone());
            assert(texts(out@) == texts(before).push(all[i as int]));
            assert(all.take(i + 1) == all.take(i as int).push(all[i as int]));
            i += 1;
        }
        assert(all.take(all.len() as int) == all);
        out
    }

    /// The model that a client sticks to. Selections that have not been used for
    /// the time to live are dropped first.
    pub fn sticky_model(&mut self, key: &str, now: Nanos) -> (r: Option<String>)
        ensures
            same_but_sticky(*old(self), *final(self)),
            final(self).runtime.sticky_models@ == unexpired(
                old(self).runtime.sticky_models@,
                old(self).config.sticky_ttl as nat,
                now as nat,
            ),
            opt_text(r) == (if final(self).runtime.sticky_models@.contains_key(key@) {
                Some(final(self).runtime.sticky_models@[key@].model)
            } else {
                None
            }),
    {
        let ttl: u128 = self.config.sticky_ttl;
        Self::evict_expired_sticky(&mut self.runtime, ttl, now);
        match self.runtime.sticky_models.get(key) {
            Some(selection) => Some(selection.model.clone()),
            None => None,
        }
    }

    /// Makes a client stick to a model. Where there are then too many selections,
    /// those that were used longest ago are dropped.
    pub fn set_sticky_model(&mut self, key: String, model: String, now: Nanos)
        ensures
            same_but_sticky(*old(self), *final(self)),
            capped(
                old(self).runtime.sticky_models@.insert(
                    key@,
                    (StickyView { model: model@, last_used_at: now as nat }),
                ),
                old(self).config.sticky_max_entries as nat,
                final(self).runtime.sticky_models@,
            ),
    {
        self.runtime.sticky_models.insert(key, model, now);
        let max: usize = self.config.sticky_max_entries;
        Self::enforce_sticky_cap(&mut self.runtime, max);
    }

    /// Makes a client stick to no model.
    pub fn clear_sticky_model(&mut self, key: &str)
        ensures
            same_but_sticky(*old(self), *final(self)),
            final(self).runtime.sticky_models@ == old(self).runtime.sticky_models@.remove(key@),
    {
        self.runtime.sticky_models.remove(key);
    }

    /// Moves a client on from a model that failed. Selections that have not been
    /// used for the time to live are dropped first.
    pub fn rotate_sticky_model(
        &mut self,
        key: &str,
        candidates: &Vec<String>,
        failed_model: &str,
        now: Nanos,
    )
        ensures
            same_but_sticky(*old(self), *final(self)),
            final(self).runtime.sticky_models@ == rotated(
                unexpired(
                    old(self).runtime.sticky_models@,
                    old(self).config.sticky_ttl as nat,
                    now as nat,
                ),
                key@,
                texts(candidates@),
                failed_model@,
                now as nat,
            ),
    {
        let ttl: u128 = self.config.sticky_ttl;
        Self::evict_expired_sticky(&mut self.runtime, ttl, now);
        match self.runtime.sticky_models.get(key) {
            Some(selection) => {
                if !same_text(selection.model.as_str(), failed_model) {
                    return;
                }
            },
            None => {
                return;
            },
        }
        match first_position(candidates, failed_model) {
            Some(i) => {
                if i < candidates.len() - 1 {
                    let next = candidates[i + 1].clone();
                    self.runtime.sticky_models.insert(key.to_owned(), next, now);
                } else {
                    self.runtime.sticky_models.remove(key);
                }
            },
            None => {
                self.runtime.sticky_models.remove(key);
            },
        }
    }

    /// Drops the selections that have not been used within the last `ttl`.
    pub fn evict_expired_sticky(runtime: &mut RuntimeState, ttl: Nanos, now: Nanos)
        ensures
            final(runtime).candidates == old(runtime).candidates,
            final(runtime).tee_allowlist == old(runtime).tee_allowlist,
            final(runtime).snapshot_at == old(runtime).snapshot_at,
            final(runtime).sticky_models@ == unexpired(
                old(runtime).sticky_models@,
                ttl as nat,
                now as nat,
            ),
    {
        runtime.sticky_models.evict_expired(ttl, now);
    }

    /// Drops the selections that were used longest ago until at most
    /// `max_entries` are left.
    pub fn enforce_sticky_cap(runtime: &mut RuntimeState, max_entries: usize)
        ensures
            final(runtime).candidates == old(runtime).candidates,
            final(runtime).tee_allowlist == old(runtime).tee_allowlist,
            final(runtime).snapshot_at == old(runtime).snapshot_at,
            capped(
                old(runtime).sticky_models@,
                max_entries as nat,
                final(runtime).sticky_models@,
            ),
    {
        runtime.sticky_models.enforce_cap(max_entries);
    }
}

/// The status of an answer that says nothing of the model: too many requests, or
/// service unavailable.
pub open spec fn transient_status(status: u16) -> bool {
    status == 429 || status == 503
}

/// Makes a client that has a key stick to the model that answered it, unless the
/// answer was that there are too many requests or that the service is unavailable.
pub fn maybe_set_sticky_model(
    state: &mut AppState,
    client_key: Option<&str>,
    status: u16,
    model_name: &str,
    now: Nanos,
)
    ensures
        same_but_sticky(*old(state), *final(state)),
        client_key is None || transient_status(status) ==> *final(state) == *old(state),
        client_key matches Some(key) ==> !transient_status(status) ==> capped(
            old(state).runtime.sticky_models@.insert(
                key@,
                (StickyView { model: model_name@, last_used_at: now as nat }),
            ),
            old(state).config.sticky_max_entries as nat,
            final(state).runtime.sticky_models@,
        ),
{
    if let Some(key) = client_key {
        if status != 429 && status != 503 {
            state.set_sticky_model(key.to_owned(), model_name.to_owned(), now);
        }
    }
}

/// The answer to a liveness probe.
pub fn healthz() -> (r: PlainReply)
    ensures
        r.status == 200,
        r.body@ == "ok"@,
{
    PlainReply { status: 200, body: "ok".to_owned() }
}

pub open spec fn not_ready(message: Seq<char>, code: Seq<char>) -> ErrorView {
    ErrorView {
        status: 503,
        error_type: "not_ready"@,
        message,
        param: None,
        code: Some(code),
    }
}

/// Why the gateway is not ready, if it is not: nothing was ranked yet, no model is
/// a candidate, or the ranking is older than the settings allow.
pub open spec fn readiness_problem(state: AppState, now: nat) -> Option<ErrorView> {
    match state.runtime.snapshot_at {
        None => Some(not_ready("service not ready: no candidate snapshot"@, "not_ready"@)),
        Some(at) => if state.runtime.candidates@.len() == 0 {
            Some(not_ready("service not ready: no eligible candidates"@, "not_ready"@))
        } else if time_since(now, at as nat) > state.config.readyz_max_snapshot_age as nat {
            Some(not_ready("service not ready: candidate snapshot is stale"@, "stale_snapshot"@))
        } else {
            None
        },
    }
}

/// The answer to a readiness probe.
pub fn readyz(state: &AppState, now: Nanos) -> (r: Result<PlainReply, ErrorReply>)
    ensures
        match r {
            Ok(reply) => {
                &&& readiness_problem(*state, now as nat) is None
                &&& reply.status == 200
                &&& reply.body@ == "ready"@
            },
            Err(e) => readiness_problem(*state, now as nat) == Some(e@),
        },
{
    let readiness = state.readiness();
    let at: u128 = match readiness.snapshot_at {
        Some(at) => at,
        None => {
            return Err(
                openai_error_response(
                    503,
                    "not_ready",
                    "service not ready: no candidate snapshot",
                    None,
                    Some("not_ready"),
                ),
            );
        },
    };
    if !readiness.has_candidates {
        return Err(
            openai_error_response(
                503,
                "not_ready",
                "service not ready: no eligible candidates",
                None,
                Some("not_ready"),
            ),
        );
    }
    if elapsed(now, at) > state.config.readyz_max_snapshot_age {
        return Err(
            openai_error_response(
                503,
                "not_ready",
                "service not ready: candidate snapshot is stale",
                None,
                Some("stale_snapshot"),
            ),
        );
    }
    Ok(PlainReply { status: 200, body: "ready".to_owned() })
}

/// A client whose model fails moves on to the next candidate, and from the last
/// one to none. No other client is touched.
pub proof fn rotation_moves_to_the_next_candidate(
    table: Map<Seq<char>, StickyView>,
    key: Seq<char>,
    candidates: Seq<Seq<char>>,
    i: int,
    now: nat,
)
    requires
        candidates.no_duplicates(),
        0 <= i < candidates.len(),
        table.contains_key(key),
        table[key].model == candidates[i],
    ensures
        i + 1 < candidates.len() ==> rotated(table, key, candidates, candidates[i], now)
            == table.insert(key, StickyView { model: candidates[i + 1], last_used_at: now }),
        i + 1 == candidates.len() ==> rotated(table, key, candidates, candidates[i], now)
            == table.remove(key),
{
    candidates.index_of_first_ensures(candidates[i]);
    assert(candidates.contains(candidates[i]));
}

/// A client that sticks to another model than the one that failed keeps it.
pub proof fn rotation_spares_other_models(
    table: Map<Seq<char>, StickyView>,
    key: Seq<char>,
    candidates: Seq<Seq<char>>,
    failed: Seq<char>,
    now: nat,
)
    requires
        table.contains_key(key) ==> table[key].model != failed,
    ensures
        rotated(table, key, candidates, failed, now) == table,
{
}

/// Neither the passing of time nor the failure of a model adds a selection, so a
/// table within the cap stays within it.
pub proof fn rotation_keeps_the_cap(
    table: Map<Seq<char>, StickyView>,
    ttl: nat,
    key: Seq<char>,
    candidates: Seq<Seq<char>>,
    failed: Seq<char>,
    now: nat,
    max: nat,
)
    requires
        table.dom().finite(),
        table.dom().len() <= max,
    ensures
        unexpired(table, ttl, now).dom().len() <= max,
        rotated(unexpired(table, ttl, now), key, candidates, failed, now).dom().len() <= max,
{
    let fresh = unexpired(table, ttl, now);
    let after = rotated(fresh, key, candidates, failed, now);
    assert(fresh.dom().subset_of(table.dom()));
    assert(after.dom().subset_of(table.dom()));
    lemma_len_subset(fresh.dom(), table.dom());
    lemma_len_subset(after.dom(), table.dom());
}

/// The gateway is ready if and only if there are candidates that were ranked no
/// longer ago than the settings allow.
pub proof fn ready_means_fresh_candidates(state: AppState, now: nat)
    ensures
        readiness_problem(state, now) is None <==> (state.runtime.candidates@.len() > 0
            && state.runtime.snapshot_at is Some && time_since(
            now,
            state.runtime.snapshot_at->0 as nat,
        ) <= state.config.readyz_max_snapshot_age as nat),
        readiness_problem(state, now) matches Some(e) ==> e.status == 503,
{
}

/// The names of the candidates are those of all of them, one for one.
pub proof fn candidate_names_are_all_names(candidates: Seq<RankedCandidate>, i: int)
    ensures
        candidate_names(candidates).len() == candidates.len(),
        0 <= i < candidates.len() ==> candidate_names(candidates)[i] == candidates[i].name@,
{
}

/// States that differ at most in the models that clients stick to have the same
/// settings, candidates, allowlist and snapshot time.
pub proof fn only_selections_differ(a: AppState, b: AppState)
    requires
        same_but_sticky(a, b),
    ensures
        a.config == b.config,
        a.runtime.candidates == b.runtime.candidates,
        a.runtime.tee_allowlist == b.runtime.tee_allowlist,
        a.runtime.snapshot_at == b.runtime.snapshot_at,
{
}

/// When the model of a client fails, the client gets the candidate right behind the
/// place where the candidates first name the failed model, and counts as served
/// now. It gets none where the failed model is the last candidate or no candidate.
/// Every other client keeps what it has.
pub proof fn failed_models_are_followed_by_the_next(
    table: Map<Seq<char>, StickyView>,
    key: Seq<char>,
    candidates: Seq<Seq<char>>,
    i: int,
    failed: Seq<char>,
    now: nat,
    other: Seq<char>,
)
    requires
        table.contains_key(key),
        table[key].model == failed,
        0 <= i <= candidates.len(),
        i < candidates.len() ==> candidates[i] == failed,
        forall|j: int| 0 <= j < i ==> #[trigger] candidates[j] != failed,
    ensures
        i + 1 < candidates.len() ==> rotated(table, key, candidates, failed, now).contains_key(key)
            && rotated(table, key, candidates, failed, now)[key].model == candidates[i + 1]
            && rotated(table, key, candidates, failed, now)[key].last_used_at == now,
        i + 1 >= candidates.len() ==> !rotated(
            table,
            key,
            candidates,
            failed,
            now,
        ).contains_key(key),
        other != key ==> (rotated(table, key, candidates, failed, now).contains_key(other)
            <==> table.contains_key(other)),
        other != key && table.contains_key(other) ==> rotated(
            table,
            key,
            candidates,
            failed,
            now,
        )[other] == table[other],
{
    candidates.index_of_first_ensures(failed);
    if i < candidates.len() {
        assert(candidates.contains(candidates[i]));
        let first = candidates.index_of_first(failed)->0;
        assert(candidates[first] == failed);
        assert(first == i);
    }
}

/// Too many requests and an unavailable service are the only answers that say
/// nothing of the model.
pub proof fn two_statuses_are_transient(status: u16)
    ensures
        transient_status(status) <==> status == 429 || status == 503,
{
}

/// What a probe of a gateway that is not ready is told: that nothing was ranked
/// yet, that no model is a candidate, or that the ranking is too old.
pub proof fn unready_gateways_say_why(state: AppState, now: nat)
    ensures
        state.runtime.snapshot_at is None ==> readiness_problem(state, now) == Some(
            ErrorView {
                status: 503,
                error_type: "not_ready"@,
                message: "service not ready: no candidate snapshot"@,
                param: None,
                code: Some("not_ready"@),
            },
        ),
        state.runtime.snapshot_at is Some && state.runtime.candidates@.len() == 0
            ==> readiness_problem(state, now) == Some(
            ErrorView {
                status: 503,
                error_type: "not_ready"@,
                message: "service not ready: no eligible candidates"@,
                param: None,
                code: Some("not_ready"@),
            },
        ),
        state.runtime.snapshot_at matches Some(at) ==> state.runtime.candidates@.len() > 0 ==> (if now
            > at as nat + state.config.readyz_max_snapshot_age as nat {
            readiness_problem(state, now) == Some(
                ErrorView {
                    status: 503,
                    error_type: "not_ready"@,
                    message: "service not ready: candidate snapshot is stale"@,
                    param: None,
                    code: Some("stale_snapshot"@),
                },
            )
        } else {
            readiness_problem(state, now) is None
        }),
{
}

} // verus!
