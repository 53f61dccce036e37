//! Sending a request on: one model after the other, until one of them answers.

use serde_json::Value;
use vstd::prelude::*;

use crate::config::Nanos;
use crate::error::{
    invalid_request, opt_str, openai_error_response, server_error, ErrorReply, ErrorView,
};
use crate::json::{
    json_parse, json_text, json_view, put_text_member, raw_value_name, write_json, JsonView,
};
use crate::request::{
    named_model, no_candidates, preferred, refuse_without_candidates, with_first, Route, RouteView,
};
use crate::state::{
    failed_models_are_followed_by_the_next, maybe_set_sticky_model, rotated, rotation_moves_to_the_next_candidate, same_but_sticky,
    transient_status, AppState,
};
use crate::sticky::{
    cap_leaves_the_latest, capped, nothing_is_dropped_below_the_cap, selection_is_remembered,
    time_since, unexpired, StickyView,
};

verus! {

/// A body that names the given model in place of the one it named.
pub open spec fn with_model(body: JsonView, model: Seq<char>) -> JsonView {
    match body {
        JsonView::Object(members) => JsonView::Object(
            members.insert("model"@, JsonView::Str(model)),
        ),
        _ => body,
    }
}

/// What is sent, given what writing the body gave.
pub open spec fn written_body(written: Option<Seq<u8>>) -> Result<Seq<u8>, ErrorView> {
    match written {
        Some(bytes) => Ok(bytes),
        None => Err(
            server_error(500, "failed to serialize request body"@, None, "serialization_error"@),
        ),
    }
}

pub open spec fn bytes_view(r: Result<Vec<u8>, ErrorReply>) -> Result<Seq<u8>, ErrorView> {
    match r {
        Ok(bytes) => Ok(bytes@),
        Err(e) => Err(e@),
    }
}

/// What is sent, given what writing the body gave.
pub fn serialized_body<E>(written: Result<Vec<u8>, E>) -> (r: Result<Vec<u8>, ErrorReply>)
    ensures
        bytes_view(r) == written_body(
            (match written {
                Ok(bytes) => Some(bytes@),
                Err(_) => None,
            }),
        ),
{
    match written {
        Ok(bytes) => Ok(bytes),
        Err(_) => Err(
            openai_error_response(
                500,
                "server_error",
                "failed to serialize request body",
                None,
                Some("serialization_error"),
            ),
        ),
    }
}

/// The body that is sent to a model: that of the request, with the model's name.
pub fn upstream_body(body: &mut Value, model: &str) -> (r: Result<Vec<u8>, ErrorReply>)
    ensures
        json_view(*final(body)) == with_model(json_view(*old(body)), model@),
        bytes_view(r) == (match json_view(*old(body)) {
            JsonView::Object(_) => written_body(
                json_text(with_model(json_view(*old(body)), model@)),
            ),
            _ => Err(
                invalid_request(400, "request body must be a JSON object"@, None, "invalid_body"@),
            ),
        }),
        r matches Ok(bytes) ==> (json_parse(bytes@) matches Some(sent) ==> {
            let members = json_view(*old(body))->Object_0;
            &&& named_model(sent) == Ok::<Seq<char>, ErrorView>(model@)
            &&& sent->Object_0.dom() == members.dom().insert("model"@)
            &&& forall|name: Seq<char>|
                members.contains_key(name) && (#[trigger] members[name] is Str) && name
                    != "model"@ ==> sent->Object_0[name] == members[name]
        }),
{
    if !body.is_object() {
        return Err(
            openai_error_response(
                400,
                "invalid_request_error",
                "request body must be a JSON object",
                None,
                Some("invalid_body"),
            ),
        );
    }
    let ghost members = json_view(*body)->Object_0;
    put_text_member(body, "model", model);
    let ghost changed = json_view(*body)->Object_0;
    let written = write_json(body);
    proof {
        reveal_strlit("model");
        reveal_strlit("$serde_json::private::RawValue");
        assert("model"@[0] != raw_value_name()[0]);
        assert(changed.contains_key("model"@));
        if written is Ok {
            if let Some(sent) = json_parse(written->Ok_0@) {
                assert(changed["model"@] is Str);
                assert(sent->Object_0.dom() =~= members.dom().insert("model"@));
                assert(sent->Object_0["model"@] == changed["model"@]);
                assert(sent->Object_0.contains_key("model"@));
                assert forall|name: Seq<char>|
                    members.contains_key(name) && (#[trigger] members[name] is Str) && name
                        != "model"@ implies sent->Object_0[name] == members[name] by {
                    assert(changed[name] is Str);
                }
            }
        }
    }
    serialized_body(written)
}

/// Why the next model is tried.
#[derive(Clone, Copy, Debug, PartialEq, Eq, Structural)]
pub enum RetryReason {
    HeaderTimeout,
    ConnectError,
    Unavailable,
    FirstChunkTimeout,
    FirstChunkError,
}

pub open spec fn reason_text(reason: RetryReason) -> Seq<char> {
    match reason {
        RetryReason::HeaderTimeout => "upstream_header_timeout"@,
        RetryReason::ConnectError => "upstream_connect_error"@,
        RetryReason::Unavailable => "upstream_503"@,
        RetryReason::FirstChunkTimeout => "upstream_first_body_byte_timeout"@,
        RetryReason::FirstChunkError => "upstream_first_body_byte_error"@,
    }
}

impl RetryReason {
    /// The name of the reason.
    pub fn as_str(&self) -> (r: &'static str)
        ensures
            r@ == reason_text(*self),
    {
        match self {
            RetryReason::HeaderTimeout => "upstream_header_timeout",
            RetryReason::ConnectError => "upstream_connect_error",
            RetryReason::Unavailable => "upstream_503",
            RetryReason::FirstChunkTimeout => "upstream_first_body_byte_timeout",
            RetryReason::FirstChunkError => "upstream_first_body_byte_error",
        }
    }
}

/// What came of waiting for the head of an answer.
#[derive(Clone, Copy, Debug, PartialEq, Eq, Structural)]
pub enum HeadOutcome {
    /// It did not come in time.
    Timeout,
    /// The request failed.
    Failed,
    /// It came, with this status.
    Status(u16),
}

/// What came of waiting for the first part of the body of an answer.
#[derive(Clone, Copy, Debug, PartialEq, Eq, Structural)]
pub enum FirstChunk {
    /// It did not come in time.
    Timeout,
    /// The body ended without one.
    Ended,
    /// Reading the body failed.
    Failed,
    /// It came.
    Arrived,
}

pub open spec fn success(status: u16) -> bool {
    200 <= status < 300
}

/// An attempt with one of the models of a route.
pub struct AttemptView {
    pub route: RouteView,
    pub index: int,
}

impl AttemptView {
    /// Whether the attempt is with a model of the route.
    pub open spec fn valid(self) -> bool {
        0 <= self.index < self.route.candidates.len()
    }

    /// The model that is tried.
    pub open spec fn model(self) -> Seq<char> {
        self.route.candidates[self.index]
    }

    /// Whether there is a model to try after this one.
    pub open spec fn has_next(self) -> bool {
        self.index + 1 < self.route.candidates.len()
    }

    /// The attempt with the next model.
    pub open spec fn next(self) -> AttemptView {
        AttemptView { route: self.route, index: self.index + 1 }
    }

    /// The answer of this attempt is handed to the client.
    pub open spec fn committed(self, status: u16) -> StepView {
        StepView::Commit(
            CommitView {
                model: self.model(),
                attempt_idx: self.index,
                candidates_total: self.route.candidates.len() as int,
                status,
                selected_model: if self.route.add_selected_header {
                    Some(self.model())
                } else {
                    None
                },
            },
        )
    }

    /// The step after the head of the answer was waited for.
    pub open spec fn after_head(self, outcome: HeadOutcome) -> StepView {
        match outcome {
            HeadOutcome::Timeout => if self.has_next() {
                StepView::Retry(self.next(), RetryReason::HeaderTimeout)
            } else {
                StepView::Fail(
                    server_error(
                        504,
                        "upstream timeout waiting for response headers"@,
                        None,
                        "upstream_header_timeout"@,
                    ),
                )
            },
            HeadOutcome::Failed => if self.has_next() {
                StepView::Retry(self.next(), RetryReason::ConnectError)
            } else {
                StepView::Fail(
                    server_error(502, "upstream request failed"@, None, "upstream_connect_error"@),
                )
            },
            HeadOutcome::Status(status) => if status == 503 && self.has_next() {
                StepView::Retry(self.next(), RetryReason::Unavailable)
            } else if success(status) && self.has_next() {
                StepView::AwaitFirstChunk(self, status)
            } else {
                self.committed(status)
            },
        }
    }

    /// The step after the first part of the body of an answer was waited for.
    pub open spec fn after_first_chunk(self, status: u16, first: FirstChunk) -> StepView {
        match first {
            FirstChunk::Timeout | FirstChunk::Ended => StepView::Retry(
                self.next(),
                RetryReason::FirstChunkTimeout,
            ),
            FirstChunk::Failed => StepView::Retry(self.next(), RetryReason::FirstChunkError),
            FirstChunk::Arrived => self.committed(status),
        }
    }

    /// The models that clients stick to, once this attempt failed: the client
    /// moves on from the model where it sticks to it.
    pub open spec fn table_after_failure(self, state: AppState, now: nat) -> Map<
        Seq<char>,
        StickyView,
    > {
        match self.route.client_key {
            Some(key) => rotated(
                unexpired(state.runtime.sticky_models@, state.config.sticky_ttl as nat, now),
                key,
                self.route.candidates,
                self.model(),
                now,
            ),
            None => state.runtime.sticky_models@,
        }
    }

    /// Whether `table` holds the models that clients stick to, once the answer of
    /// this attempt was handed to the client.
    pub open spec fn remembered(
        self,
        state: AppState,
        status: u16,
        now: nat,
        table: Map<Seq<char>, StickyView>,
    ) -> bool {
        match self.route.client_key {
            Some(key) if !transient_status(status) => capped(
                state.runtime.sticky_models@.insert(
                    key,
                    StickyView { model: self.model(), last_used_at: now },
                ),
                state.config.sticky_max_entries as nat,
                table,
            ),
            _ => table == state.runtime.sticky_models@,
        }
    }

    /// Whether a step leaves `table` as the models that clients stick to.
    pub open spec fn leaves(
        self,
        state: AppState,
        step: StepView,
        now: nat,
        table: Map<Seq<char>, StickyView>,
    ) -> bool {
        match step {
            StepView::Retry(_, _) => table == self.table_after_failure(state, now),
            StepView::Fail(_) => table == self.table_after_failure(state, now),
            StepView::AwaitFirstChunk(_, _) => table == state.runtime.sticky_models@,
            StepView::Commit(commit) => self.remembered(state, commit.status, now, table),
        }
    }
}

/// What is done next about a request.
pub enum StepView {
    Retry(AttemptView, RetryReason),
    AwaitFirstChunk(AttemptView, u16),
    Commit(CommitView),
    Fail(ErrorView),
}

/// An answer that is handed to the client.
pub struct CommitView {
    pub model: Seq<char>,
    pub attempt_idx: int,
    pub candidates_total: int,
    pub status: u16,
    pub selected_model: Option<Seq<char>>,
}

/// An answer that is handed to the client.
pub struct Commit {
    pub model: String,
    pub attempt_idx: usize,
    pub candidates_total: usize,
    pub status: u16,
    pub add_selected_header: bool,
}

impl View for Commit {
    type V = CommitView;

    open spec fn view(&self) -> CommitView {
        CommitView {
            model: self.model@,
            attempt_idx: self.attempt_idx as int,
            candidates_total: self.candidates_total as int,
            status: self.status,
            selected_model: if self.add_selected_header {
                Some(self.model@)
            } else {
                None
            },
        }
    }
}

impl Commit {
    /// The model that the answer names as the one that gave it, if it names one.
    pub fn selected_model(&self) -> (r: Option<&str>)
        ensures
            opt_str(r) == self@.selected_model,
    {
        if self.add_selected_header {
            Some(self.model.as_str())
        } else {
            None
        }
    }
}

/// An attempt with one of the models of a route.
pub struct Attempt {
    route: Route,
    index: usize,
}

impl View for Attempt {
    type V = AttemptView;

    closed spec fn view(&self) -> AttemptView {
        AttemptView { route: self.route@, index: self.index as int }
    }
}

/// An attempt whose answer has a head that is fine and no body yet. There is a
/// model to try after this one.
pub struct PendingBody {
    attempt: Attempt,
    status: u16,
}

impl PendingBody {
    #[verifier::type_invariant]
    spec fn well_formed(self) -> bool {
        self.attempt@.has_next()
    }

    /// The attempt whose answer is waited for.
    pub closed spec fn attempt_view(self) -> AttemptView {
        self.attempt@
    }

    /// The status of the answer.
    pub closed spec fn status_view(self) -> u16 {
        self.status
    }
}

/// What is done next about a request.
pub enum Step {
    /// Another model is tried.
    Retry(Attempt, RetryReason),
    /// The answer is good so far; the first part of its body is waited for.
    AwaitFirstChunk(PendingBody),
    /// The answer is handed to the client.
    Commit(Commit),
    /// The client is told that the request failed.
    Fail(ErrorReply),
}

impl View for Step {
    type V = StepView;

    open spec fn view(&self) -> StepView {
        match *self {
            Step::Retry(attempt, reason) => StepView::Retry(attempt@, reason),
            Step::AwaitFirstChunk(pending) => StepView::AwaitFirstChunk(
                pending.attempt_view(),
                pending.status_view(),
            ),
            Step::Commit(commit) => StepView::Commit(commit@),
            Step::Fail(e) => StepView::Fail(e@),
        }
    }
}

impl Attempt {
    #[verifier::type_invariant]
    spec fn well_formed(self) -> bool {
        self.index < self.route.candidates@.len()
    }

    /// The attempt with the first model of a route.
    pub fn first(route: Route) -> (r: Result<Attempt, ErrorReply>)
        ensures
            match r {
                Ok(attempt) => {
                    &&& route@.candidates.len() > 0
                    &&& attempt@ == (AttemptView { route: route@, index: 0 })
                },
                Err(e) => route@.candidates.len() == 0 && e@ == no_candidates(),
            },
    {
        if route.candidates.len() == 0 {
            return Err(refuse_without_candidates());
        }
        Ok(Attempt { route, index: 0 })
    }

    /// The model that is tried.
    pub fn model(&self) -> (r: &str)
        ensures
            self@.valid(),
            r@ == self@.model(),
    {
        proof {
            use_type_invariant(self);
        }
        self.route.candidates[self.index].as_str()
    }

    /// The place of the model among the models to try.
    pub fn attempt_idx(&self) -> (r: usize)
        ensures
            r as int == self@.index,
    {
        self.index
    }

    /// The number of models to try.
    pub fn candidates_total(&self) -> (r: usize)
        ensures
            r as int == self@.route.candidates.len(),
    {
        self.route.candidates.len()
    }

    fn note_failure(&self, state: &mut AppState, now: Nanos)
        ensures
            same_but_sticky(*old(state), *final(state)),
            final(state).runtime.sticky_models@ == self@.table_after_failure(
                *old(state),
                now as nat,
            ),
    {
        proof {
            use_type_invariant(self);
        }
        if let Some(key) = &self.route.client_key {
            state.rotate_sticky_model(
                key.as_str(),
                &self.route.candidates,
                self.route.candidates[self.index].as_str(),
                now,
            );
        }
    }

    fn has_next(&self) -> (r: bool)
        ensures
            r == self@.has_next(),
            self@.valid(),
    {
        proof {
            use_type_invariant(self);
        }
        self.index < self.route.candidates.len() - 1
    }

    fn next(self) -> (r: Attempt)
        requires
            self@.has_next(),
        ensures
            r@ == self@.next(),
    {
        proof {
            use_type_invariant(&self);
        }
        let total: usize = self.route.candidates.len();
        assert(self.index + 1 < total);
        Attempt { index: self.index + 1, route: self.route }
    }

    fn commit(self, state: &mut AppState, status: u16, now: Nanos) -> (r: Step)
        ensures
            same_but_sticky(*old(state), *final(state)),
            r@ == self@.committed(status),
            self@.leaves(*old(state), r@, now as nat, final(state).runtime.sticky_models@),
    {
        proof {
            use_type_invariant(&self);
        }
        let model = self.route.candidates[self.index].clone();
        match &self.route.client_key {
            Some(key) => {
                maybe_set_sticky_model(state, Some(key.as_str()), status, model.as_str(), now);
            },
            None => {},
        }
        Step::Commit(
            Commit {
                model,
                attempt_idx: self.index,
                candidates_total: self.route.candidates.len(),
                status,
                add_selected_header: self.route.add_selected_header,
            },
        )
    }

    /// What is done next, after the head of the answer was waited for.
    pub fn on_head(self, state: &mut AppState, outcome: HeadOutcome, now: Nanos) -> (r: Step)
        ensures
            same_but_sticky(*old(state), *final(state)),
            r@ == self@.after_head(outcome),
            self@.leaves(*old(state), r@, now as nat, final(state).runtime.sticky_models@),
    {
        let more = self.has_next();
        match outcome {
            HeadOutcome::Timeout => {
                self.note_failure(state, now);
                if more {
                    return Step::Retry(self.next(), RetryReason::HeaderTimeout);
                }
                Step::Fail(
                    openai_error_response(
                        504,
                        "server_error",
                        "upstream timeout waiting for response headers",
                        None,
                        Some("upstream_header_timeout"),
                    ),
                )
            },
            HeadOutcome::Failed => {
                self.note_failure(state, now);
                if more {
                    return Step::Retry(self.next(), RetryReason::ConnectError);
                }
                Step::Fail(
                    openai_error_response(
                        502,
                        "server_error",
                        "upstream request failed",
                        None,
                        Some("upstream_connect_error"),
                    ),
                )
            },
            HeadOutcome::Status(status) => {
                if status == 503 && more {
                    self.note_failure(state, now);
                    return Step::Retry(self.next(), RetryReason::Unavailable);
                }
                if status >= 200 && status < 300 && more {
                    return Step::AwaitFirstChunk(PendingBody { attempt: self, status });
                }
                self.commit(state, status, now)
            },
        }
    }
}

impl PendingBody {
    /// What is done next, after the first part of the body was waited for.
    pub fn on_first_chunk(self, state: &mut AppState, first: FirstChunk, now: Nanos) -> (r: Step)
        ensures
            same_but_sticky(*old(state), *final(state)),
            r@ == self.attempt_view().after_first_chunk(self.status_view(), first),
            self.attempt_view().leaves(
                *old(state),
                r@,
                now as nat,
                final(state).runtime.sticky_models@,
            ),
    {
        proof {
            use_type_invariant(&self);
        }
        let PendingBody { attempt, status } = self;
        match first {
            FirstChunk::Timeout => {
                attempt.note_failure(state, now);
                Step::Retry(attempt.next(), RetryReason::FirstChunkTimeout)
            },
            FirstChunk::Ended => {
                attempt.note_failure(state, now);
                Step::Retry(attempt.next(), RetryReason::FirstChunkTimeout)
            },
            FirstChunk::Failed => {
                attempt.note_failure(state, now);
                Step::Retry(attempt.next(), RetryReason::FirstChunkError)
            },
            FirstChunk::Arrived => attempt.commit(state, status, now),
        }
    }
}

/// Naming a model changes nothing else in a body, replaces the model that was
/// named before, and is read back.
pub proof fn naming_a_model_changes_only_the_model(
    members: Map<Seq<char>, JsonView>,
    first: Seq<char>,
    model: Seq<char>,
)
    ensures
        named_model(with_model(JsonView::Object(members), model)) == Ok::<Seq<char>, ErrorView>(
            model,
        ),
        with_model(with_model(JsonView::Object(members), first), model) == with_model(
            JsonView::Object(members),
            model,
        ),
        with_model(JsonView::Object(members), model)->Object_0.remove("model"@) == members.remove(
            "model"@,
        ),
        named_model(JsonView::Object(members)) == Ok::<Seq<char>, ErrorView>(model) ==> with_model(
            JsonView::Object(members),
            model,
        ) == JsonView::Object(members),
{
    let once = members.insert("model"@, JsonView::Str(first));
    assert(once.insert("model"@, JsonView::Str(model)) =~= members.insert(
        "model"@,
        JsonView::Str(model),
    ));
    assert(members.insert("model"@, JsonView::Str(model)).remove("model"@) =~= members.remove(
        "model"@,
    ));
    if named_model(JsonView::Object(members)) == Ok::<Seq<char>, ErrorView>(model) {
        assert(members.insert("model"@, JsonView::Str(model)) =~= members);
    }
}

/// How one model takes a request.
pub enum Reply {
    Timeout,
    Failed,
    Answer { status: u16, first: FirstChunk },
}

/// Whether another model is tried after this reply, if there is one: the head of
/// the answer did not come in time, the request failed, the model is unavailable,
/// or a good answer has no body.
pub open spec fn retryable(reply: Reply) -> bool {
    match reply {
        Reply::Timeout => true,
        Reply::Failed => true,
        Reply::Answer { status, first } => status == 503 || (success(status) && first
            != FirstChunk::Arrived),
    }
}

/// What comes of an attempt.
pub open spec fn attempt_end(attempt: AttemptView, reply: Reply) -> StepView {
    match reply {
        Reply::Timeout => attempt.after_head(HeadOutcome::Timeout),
        Reply::Failed => attempt.after_head(HeadOutcome::Failed),
        Reply::Answer { status, first } => match attempt.after_head(HeadOutcome::Status(status)) {
            StepView::AwaitFirstChunk(same, seen) => same.after_first_chunk(seen, first),
            step => step,
        },
    }
}

/// What comes of a request that is at `attempt`, where the models take it as
/// `replies` says.
pub open spec fn request_end(attempt: AttemptView, replies: Seq<Reply>) -> StepView
    decreases attempt.route.candidates.len() - attempt.index,
{
    match attempt_end(attempt, replies[attempt.index]) {
        StepView::Retry(_, _) if attempt.has_next() => request_end(attempt.next(), replies),
        step => step,
    }
}

proof fn lemma_attempt_end(attempt: AttemptView, reply: Reply)
    requires
        attempt.valid(),
    ensures
        attempt_end(attempt, reply) is AwaitFirstChunk ==> false,
        attempt_end(attempt, reply) matches StepView::Retry(next, _) ==> attempt.has_next() && next
            == attempt.next(),
        attempt_end(attempt, reply) is Retry <==> retryable(reply) && attempt.has_next(),
{
}

/// The models are tried in their order, and the first one whose reply is not
/// retryable, or else the last one, settles the request. So there are at most as
/// many attempts as models.
pub proof fn first_usable_reply_settles_the_request(
    route: RouteView,
    replies: Seq<Reply>,
    from: int,
    settled: int,
)
    requires
        0 <= from <= settled < route.candidates.len(),
        forall|i: int| from <= i < settled ==> retryable(#[trigger] replies[i]),
        settled + 1 == route.candidates.len() || !retryable(replies[settled]),
    ensures
        request_end(AttemptView { route, index: from }, replies) == attempt_end(
            AttemptView { route, index: settled },
            replies[settled],
        ),
        request_end(AttemptView { route, index: from }, replies) is Commit || request_end(
            AttemptView { route, index: from },
            replies,
        ) is Fail,
    decreases settled - from,
{
    let attempt = AttemptView { route, index: from };
    lemma_attempt_end(attempt, replies[from]);
    if from < settled {
        first_usable_reply_settles_the_request(route, replies, from + 1, settled);
    }
}

/// A reply that settles a request is handed to the client as it is, under the
/// name of the model that gave it where the gateway chose that model; only a
/// request that got no answer at all fails.
pub proof fn settling_reply_is_handed_on(attempt: AttemptView, reply: Reply)
    requires
        attempt.valid(),
        !retryable(reply) || !attempt.has_next(),
    ensures
        match reply {
            Reply::Answer { status, first } => attempt_end(attempt, reply) == attempt.committed(
                status,
            ),
            Reply::Timeout => attempt_end(attempt, reply) matches StepView::Fail(e) && e.status
                == 504,
            Reply::Failed => attempt_end(attempt, reply) matches StepView::Fail(e) && e.status
                == 502,
        },
{
}

/// The refusal of a client that sends too many requests is handed to the client,
/// and no other model is tried.
pub proof fn rate_limit_is_never_retried(attempt: AttemptView, first: FirstChunk)
    requires
        attempt.valid(),
    ensures
        attempt_end(attempt, Reply::Answer { status: 429, first }) == attempt.committed(429),
{
}

/// Once a part of a good answer arrived, no other model is tried.
pub proof fn nothing_is_retried_once_a_part_arrived(attempt: AttemptView, status: u16)
    requires
        attempt.valid(),
        success(status),
    ensures
        attempt_end(attempt, Reply::Answer { status, first: FirstChunk::Arrived })
            == attempt.committed(status),
{
}

/// A good answer is not handed to the client before a part of its body arrived,
/// as long as there is another model to try.
pub proof fn good_answers_wait_for_their_body(attempt: AttemptView, status: u16)
    requires
        attempt.has_next(),
        success(status),
    ensures
        attempt.after_head(HeadOutcome::Status(status)) == StepView::AwaitFirstChunk(
            attempt,
            status,
        ),
{
}

/// A client that sticks to the model that fails sticks to the model that is tried
/// next, and to none after the last one.
pub proof fn failure_moves_the_client_along(attempt: AttemptView, state: AppState, now: nat)
    requires
        attempt.valid(),
        attempt.route.candidates.no_duplicates(),
        attempt.route.client_key is Some,
        ({
            let table = unexpired(
                state.runtime.sticky_models@,
                state.config.sticky_ttl as nat,
                now,
            );
            table.contains_key(attempt.route.client_key->0)
                && table[attempt.route.client_key->0].model == attempt.model()
        }),
    ensures
        ({
            let table = attempt.table_after_failure(state, now);
            let key = attempt.route.client_key->0;
            if attempt.has_next() {
                table.contains_key(key) && table[key].model == attempt.next().model()
            } else {
                !table.contains_key(key)
            }
        }),
{
    let table = unexpired(state.runtime.sticky_models@, state.config.sticky_ttl as nat, now);
    rotation_moves_to_the_next_candidate(
        table,
        attempt.route.client_key->0,
        attempt.route.candidates,
        attempt.index,
        now,
    );
}

/// A client goes on trying the model that served it first: within the time to
/// live, and as long as the model is a candidate. The table must have had room
/// for the client, or every other selection must have been older.
pub proof fn client_sticks_to_the_model_that_served_it(
    attempt: AttemptView,
    state: AppState,
    status: u16,
    now: nat,
    table: Map<Seq<char>, StickyView>,
    later: nat,
    candidates: Seq<Seq<char>>,
)
    requires
        attempt.valid(),
        attempt.route.client_key is Some,
        !transient_status(status),
        attempt.remembered(state, status, now, table),
        ({
            let before = state.runtime.sticky_models@;
            let key = attempt.route.client_key->0;
            before.insert(key, StickyView { model: attempt.model(), last_used_at: now }).dom().len()
                <= state.config.sticky_max_entries as nat || (state.config.sticky_max_entries > 0
                && forall|other: Seq<char>|
                before.contains_key(other) && other != key ==> (
                #[trigger] before[other]).last_used_at < now)
        }),
        state.config.sticky_ttl > 0,
        time_since(later, now) <= state.config.sticky_ttl as nat,
        candidates.contains(attempt.model()),
    ensures
        preferred(
            unexpired(table, state.config.sticky_ttl as nat, later),
            attempt.route.client_key->0,
            candidates,
        ) == with_first(candidates, attempt.model()),
        with_first(candidates, attempt.model())[0] == attempt.model(),
{
    selection_is_remembered(
        state.runtime.sticky_models@,
        attempt.route.client_key->0,
        attempt.model(),
        now,
        state.config.sticky_max_entries as nat,
        table,
        state.config.sticky_ttl as nat,
        later,
    );
}

/// What an attempt, an answer and a step stand for in contracts is what they hold.
pub proof fn commits_show_their_fields(commit: Commit)
    ensures
        commit@.model == commit.model@,
        commit@.attempt_idx == commit.attempt_idx,
        commit@.candidates_total == commit.candidates_total,
        commit@.status == commit.status,
        commit.add_selected_header ==> commit@.selected_model == Some(commit.model@),
        !commit.add_selected_header ==> commit@.selected_model is None,
{
}

/// A step shows what is done next, and with what.
pub proof fn steps_show_what_is_done(
    attempt: Attempt,
    reason: RetryReason,
    commit: Commit,
    e: ErrorReply,
    pending: PendingBody,
)
    ensures
        Step::Retry(attempt, reason)@ == StepView::Retry(attempt@, reason),
        Step::Commit(commit)@ == StepView::Commit(commit@),
        Step::Fail(e)@ == StepView::Fail(e@),
        Step::AwaitFirstChunk(pending)@ == StepView::AwaitFirstChunk(
            pending.attempt_view(),
            pending.status_view(),
        ),
{
}

/// The attempt of a route at a place is with the model at that place, is followed
/// by the one at the next place, and the last one is followed by none.
pub proof fn attempts_follow_the_route(attempt: AttemptView)
    ensures
        attempt.valid() <==> 0 <= attempt.index < attempt.route.candidates.len(),
        attempt.has_next() <==> attempt.index + 1 < attempt.route.candidates.len(),
        attempt.model() == attempt.route.candidates[attempt.index],
        attempt.next().index == attempt.index + 1,
        attempt.next().route == attempt.route,
{
}

/// After the head of an answer was waited for: a head that did not come, a request
/// that failed and a status of 503 lead to the model at the next place; a status
/// from 200 to 299 leads to the body being waited for; and any other status is
/// handed to the client. At the last place, a head that did not come and a request
/// that failed are told to the client, and every status is handed on.
pub proof fn heads_lead_to_the_next_step(attempt: AttemptView, status: u16)
    requires
        0 <= attempt.index < attempt.route.candidates.len(),
    ensures
        ({
            let more = attempt.index + 1 < attempt.route.candidates.len();
            let next = AttemptView { route: attempt.route, index: attempt.index + 1 };
            let committed = StepView::Commit(
                CommitView {
                    model: attempt.route.candidates[attempt.index],
                    attempt_idx: attempt.index,
                    candidates_total: attempt.route.candidates.len() as int,
                    status,
                    selected_model: if attempt.route.add_selected_header {
                        Some(attempt.route.candidates[attempt.index])
                    } else {
                        None
                    },
                },
            );
            let failed = |code: u16, message: Seq<char>, name: Seq<char>|
                StepView::Fail(
                    ErrorView {
                        status: code,
                        error_type: "server_error"@,
                        message,
                        param: None,
                        code: Some(name),
                    },
                );
            &&& attempt.after_head(HeadOutcome::Timeout) == (if more {
                StepView::Retry(next, RetryReason::HeaderTimeout)
            } else {
                failed(
                    504,
                    "upstream timeout waiting for response headers"@,
                    "upstream_header_timeout"@,
                )
            })
            &&& attempt.after_head(HeadOutcome::Failed) == (if more {
                StepView::Retry(next, RetryReason::ConnectError)
            } else {
                failed(502, "upstream request failed"@, "upstream_connect_error"@)
            })
            &&& more && status == 503 ==> attempt.after_head(HeadOutcome::Status(status))
                == StepView::Retry(next, RetryReason::Unavailable)
            &&& more && 200 <= status <= 299 ==> attempt.after_head(HeadOutcome::Status(status))
                == StepView::AwaitFirstChunk(attempt, status)
            &&& !more || !(status == 503 || 200 <= status <= 299) ==> attempt.after_head(
                HeadOutcome::Status(status),
            ) == committed
        }),
{
}

/// After the first part of a body was waited for: the answer is handed to the client
/// if and only if the part came, and otherwise the model at the next place is tried.
pub proof fn first_parts_lead_to_the_next_step(attempt: AttemptView, status: u16)
    ensures
        ({
            let next = AttemptView { route: attempt.route, index: attempt.index + 1 };
            &&& attempt.after_first_chunk(status, FirstChunk::Timeout) == StepView::Retry(
                next,
                RetryReason::FirstChunkTimeout,
            )
            &&& attempt.after_first_chunk(status, FirstChunk::Ended) == StepView::Retry(
                next,
                RetryReason::FirstChunkTimeout,
            )
            &&& attempt.after_first_chunk(status, FirstChunk::Failed) == StepView::Retry(
                next,
                RetryReason::FirstChunkError,
            )
            &&& attempt.after_first_chunk(status, FirstChunk::Arrived) == StepView::Commit(
                CommitView {
                    model: attempt.route.candidates[attempt.index],
                    attempt_idx: attempt.index,
                    candidates_total: attempt.route.candidates.len() as int,
                    status,
                    selected_model: if attempt.route.add_selected_header {
                        Some(attempt.route.candidates[attempt.index])
                    } else {
                        None
                    },
                },
            )
        }),
{
}

/// The replies after which another model is tried: no head in time, a failed
/// request, a status of 503, and a status from 200 to 299 without a part of a body.
pub proof fn replies_that_are_retried(reply: Reply)
    ensures
        retryable(reply) <==> (match reply {
            Reply::Timeout => true,
            Reply::Failed => true,
            Reply::Answer { status, first } => status == 503 || (200 <= status <= 299 && first
                != FirstChunk::Arrived),
        }),
{
}

/// Of a request, the models are tried in the order of the route until one of them
/// gives an answer that is not retried: its status and its name are what the client
/// gets, and no model before it gave such an answer. Where even the last one gives
/// none, the client gets the last one's.
pub proof fn requests_end_with_the_first_usable_answer(
    route: RouteView,
    replies: Seq<Reply>,
    settled: int,
    status: u16,
    first: FirstChunk,
)
    requires
        0 <= settled < route.candidates.len(),
        forall|i: int|
            0 <= i < settled ==> (match #[trigger] replies[i] {
                Reply::Timeout => true,
                Reply::Failed => true,
                Reply::Answer { status, first } => status == 503 || (200 <= status <= 299 && first
                    != FirstChunk::Arrived),
            }),
        replies[settled] == (Reply::Answer { status, first }),
        settled + 1 == route.candidates.len() || !(status == 503 || (200 <= status <= 299 && first
            != FirstChunk::Arrived)),
    ensures
        request_end(AttemptView { route, index: 0 }, replies) == StepView::Commit(
            CommitView {
                model: route.candidates[settled],
                attempt_idx: settled,
                candidates_total: route.candidates.len() as int,
                status,
                selected_model: if route.add_selected_header {
                    Some(route.candidates[settled])
                } else {
                    None
                },
            },
        ),
{
    first_usable_reply_settles_the_request(route, replies, 0, settled);
    settling_reply_is_handed_on(AttemptView { route, index: settled }, replies[settled]);
}

/// A request without a key, and an answer that is still waited for, change no
/// selection.
pub proof fn steps_without_a_key_change_no_selection(
    attempt: AttemptView,
    state: AppState,
    step: StepView,
    now: nat,
    table: Map<Seq<char>, StickyView>,
)
    requires
        attempt.leaves(state, step, now, table),
        attempt.route.client_key is None || step is AwaitFirstChunk,
    ensures
        table == state.runtime.sticky_models@,
{
}

/// A step that gives a model up moves a client that sticks to the model on to the
/// candidate right behind the place where the route first names it, or to none. A
/// client that sticks to another model keeps it, and so does every other client;
/// expired selections are dropped.
pub proof fn given_up_models_move_their_client_on(
    attempt: AttemptView,
    state: AppState,
    step: StepView,
    now: nat,
    table: Map<Seq<char>, StickyView>,
    i: int,
    other: Seq<char>,
)
    requires
        attempt.leaves(state, step, now, table),
        step is Retry || step is Fail,
        attempt.route.client_key is Some,
        0 <= i <= attempt.index < attempt.route.candidates.len(),
        attempt.route.candidates[i] == attempt.route.candidates[attempt.index],
        forall|j: int|
            0 <= j < i ==> #[trigger] attempt.route.candidates[j]
                != attempt.route.candidates[attempt.index],
    ensures
        ({
            let before = state.runtime.sticky_models@;
            let key = attempt.route.client_key->0;
            let ttl = state.config.sticky_ttl as nat;
            let alive = |k: Seq<char>|
                before.contains_key(k) && ttl > 0 && now <= before[k].last_used_at + ttl;
            let sticks = alive(key) && before[key].model == attempt.route.candidates[attempt.index];
            &&& sticks && i + 1 < attempt.route.candidates.len() ==> table.contains_key(key)
                && table[key].model == attempt.route.candidates[i + 1] && table[key].last_used_at
                == now
            &&& sticks && i + 1 == attempt.route.candidates.len() ==> !table.contains_key(key)
            &&& other != key || !sticks ==> (table.contains_key(other) <==> alive(other))
            &&& (other != key || !sticks) && alive(other) ==> table[other] == before[other]
        }),
{
    let before = state.runtime.sticky_models@;
    let key = attempt.route.client_key->0;
    let fresh = unexpired(before, state.config.sticky_ttl as nat, now);
    if fresh.contains_key(key) && fresh[key].model == attempt.model() {
        failed_models_are_followed_by_the_next(
            fresh,
            key,
            attempt.route.candidates,
            i,
            attempt.model(),
            now,
            other,
        );
    }
}

/// An answer that is handed on makes its client stick to the model that gave it,
/// from now on, where the table has room; no other selection is touched then. Too
/// many requests and an unavailable service are not remembered.
pub proof fn handed_on_answers_are_remembered(
    attempt: AttemptView,
    state: AppState,
    commit: CommitView,
    now: nat,
    table: Map<Seq<char>, StickyView>,
    other: Seq<char>,
)
    requires
        attempt.leaves(state, StepView::Commit(commit), now, table),
    ensures
        commit.status == 429 || commit.status == 503 ==> table == state.runtime.sticky_models@,
        attempt.route.client_key matches Some(key) ==> commit.status != 429 && commit.status != 503
            && state.runtime.sticky_models@.dom().insert(key).len()
            <= state.config.sticky_max_entries ==> {
            &&& table.contains_key(key)
            &&& table[key].model == attempt.route.candidates[attempt.index]
            &&& table[key].last_used_at == now
            &&& other != key ==> (table.contains_key(other)
                <==> state.runtime.sticky_models@.contains_key(other))
            &&& other != key && table.contains_key(other) ==> table[other]
                == state.runtime.sticky_models@[other]
        },
        attempt.route.client_key matches Some(key) ==> commit.status != 429 && commit.status != 503
            ==> table.dom().len() <= state.config.sticky_max_entries,
        attempt.route.client_key matches Some(key) ==> other != key && table.contains_key(other)
            ==> state.runtime.sticky_models@.contains_key(other) && table[other]
            == state.runtime.sticky_models@[other],
{
    if let Some(key) = attempt.route.client_key {
        if commit.status != 429 && commit.status != 503 {
            let whole = state.runtime.sticky_models@.insert(
                key,
                StickyView { model: attempt.model(), last_used_at: now },
            );
            let max = state.config.sticky_max_entries as nat;
            assert(whole.dom() =~= state.runtime.sticky_models@.dom().insert(key));
            cap_leaves_the_latest(whole, max, table, other, other);
            cap_leaves_the_latest(whole, max, table, key, key);
            if whole.dom().len() <= max {
                nothing_is_dropped_below_the_cap(whole, max, table);
            }
        }
    }
}

/// What is sent is what was written, and a body that cannot be written is answered
/// with an error of the server. Every reason to try another model has its own name.
pub proof fn bodies_are_sent_as_written(bytes: Seq<u8>, a: RetryReason, b: RetryReason)
    ensures
        written_body(Some(bytes)) == Ok::<Seq<u8>, ErrorView>(bytes),
        written_body(None) == Err::<Seq<u8>, ErrorView>(
            ErrorView {
                status: 500,
                error_type: "server_error"@,
                message: "failed to serialize request body"@,
                param: None,
                code: Some("serialization_error"@),
            },
        ),
        reason_text(a) == reason_text(b) ==> a == b,
{
    reveal_strlit("upstream_header_timeout");
    reveal_strlit("upstream_connect_error");
    reveal_strlit("upstream_503");
    reveal_strlit("upstream_first_body_byte_timeout");
    reveal_strlit("upstream_first_body_byte_error");
    if a != b {
        assert("upstream_header_timeout"@[9] == 'h');
        assert("upstream_connect_error"@[9] == 'c');
        assert("upstream_503"@[9] == '5');
        assert("upstream_first_body_byte_timeout"@[9] == 'f');
        assert("upstream_first_body_byte_error"@[9] == 'f');
        assert("upstream_first_body_byte_timeout"@[25] == 't');
        assert("upstream_first_body_byte_error"@[25] == 'e');
    }
}

/// What is sent, and the answer where nothing is, are shown as they are.
pub proof fn bodies_are_shown(bytes: Vec<u8>, e: ErrorReply, other: Seq<u8>, model: Seq<char>)
    ensures
        bytes_view(Ok(bytes)) == Ok::<Seq<u8>, ErrorView>(bytes@),
        bytes_view(Err(e)) == Err::<Seq<u8>, ErrorView>(e@),
        with_model(JsonView::Other(other), model) == JsonView::Other(other),
        with_model(JsonView::Str(model), model) == JsonView::Str(model),
{
}

} // verus!
