//! Outbound records, their headers, and the replies that are matched to them.
use rdkafka::message::OwnedHeaders;
use std::sync::Arc;
use vstd::prelude::*;
use vstd::string::*;
use vstd::utf8::*;

use crate::error::{
    transport_error, transport_message, BackendError, BackendErrorView, TransportStep,
};
use crate::text::{pair_view, pair_views, same_text, PairView};

verus! {

/// The idempotency hint of the gateway: an application-level key and the hash of
/// its scope.
#[derive(Debug)]
pub struct IdempotencyHint {
    /// The idempotency key.
    pub key: String,
    /// The hash of the scope in which the key is unique.
    pub scope_hash: String,
}

/// One call, as the gateway hands it over. `I` is the identity of the caller;
/// nothing here looks inside it.
#[derive(Debug)]
pub struct BackendRequest<I> {
    /// The payload of the record to produce.
    pub payload: Vec<u8>,
    /// Headers to pass on, such as the trace context.
    pub headers: Vec<(String, String)>,
    /// The id of the gateway's request.
    pub request_id: String,
    /// The id of the gateway's session.
    pub session_id: Option<String>,
    /// Who calls.
    pub identity: Option<Arc<I>>,
    /// The idempotency hint, if the gateway gives one.
    pub idempotency: Option<IdempotencyHint>,
}

/// The name and the value of an outbound header.
pub type HeaderView = (Seq<char>, Seq<u8>);

/// The characters and bytes of an outbound header.
pub open spec fn header_view(header: (String, Vec<u8>)) -> HeaderView {
    (header.0@, header.1@)
}

/// The characters and bytes of a list of outbound headers.
pub open spec fn header_views(headers: Seq<(String, Vec<u8>)>) -> Seq<HeaderView> {
    headers.map_values(|h: (String, Vec<u8>)| header_view(h))
}

/// A header whose value is the UTF-8 of a text.
pub open spec fn text_header(pair: PairView) -> HeaderView {
    (pair.0, encode_utf8(pair.1))
}

/// The texts of an idempotency hint.
pub open spec fn hint_view(hint: Option<IdempotencyHint>) -> Option<PairView> {
    match hint {
        Some(h) => Some((h.key@, h.scope_hash@)),
        None => None,
    }
}

/// The headers of an outbound record: the correlation id, the headers that are
/// passed on, and, if there is an idempotency hint, its key and its scope hash.
pub open spec fn outbound_headers(
    correlation_id: Seq<char>,
    headers: Seq<PairView>,
    hint: Option<PairView>,
) -> Seq<HeaderView> {
    seq![text_header(("correlation_id"@, correlation_id))] + headers.map_values(
        |p: PairView| text_header(p),
    ) + match hint {
        Some(h) => seq![
            text_header(("idempotency-key"@, h.0)),
            text_header(("idempotency-scope-hash"@, h.1)),
        ],
        None => seq![],
    }
}

/// How many headers the record of `request` has.
pub open spec fn outbound_count<I>(request: BackendRequest<I>) -> nat {
    request.headers@.len() + 1 + if request.idempotency is Some {
        2nat
    } else {
        0nat
    }
}

/// A header named `name` whose value is the UTF-8 of `text`.
fn header_of(name: &str, text: &str) -> (header: (String, Vec<u8>))
    ensures
        header_view(header) == text_header((name@, text@)),
{
    (name.to_owned(), text.as_bytes_vec())
}

/// Builds the headers of the record that `request` goes out in. The hint's headers
/// are application-level idempotency and unrelated to the producer's own
/// `enable.idempotence`.
pub fn build_outbound_headers<I>(correlation_id: &str, request: &BackendRequest<I>) -> (out: Vec<
    (String, Vec<u8>),
>)
    ensures
        header_views(out@) == outbound_headers(
            correlation_id@,
            pair_views(request.headers@),
            hint_view(request.idempotency),
        ),
{
    let mut out: Vec<(String, Vec<u8>)> = Vec::new();
    out.push(header_of("correlation_id", correlation_id));
    let ghost passed_on = pair_views(request.headers@);
    let ghost first = seq![text_header(("correlation_id"@, correlation_id@))];
    assert(header_views(out@) =~= first + passed_on.take(0).map_values(
        |p: PairView| text_header(p),
    ));
    let mut i: usize = 0;
    while i < request.headers.len()
        invariant
            i <= request.headers.len(),
            passed_on == pair_views(request.headers@),
            header_views(out@) == first + passed_on.take(i as int).map_values(
                |p: PairView| text_header(p),
            ),
        decreases request.headers.len() - i,
    {
        let ghost before = header_views(out@);
        let header = header_of(&request.headers[i].0, &request.headers[i].1);
        out.push(header);
        proof {
            assert(passed_on[i as int] == pair_view(request.headers@[i as int]));
            assert(header_views(out@) =~= before.push(text_header(passed_on[i as int])));
            assert(header_views(out@) =~= first + passed_on.take(i + 1).map_values(
                |p: PairView| text_header(p),
            ));
        }
        i += 1;
    }
    assert(passed_on.take(i as int) =~= passed_on);
    let ghost before = header_views(out@);
    if let Some(hint) = &request.idempotency {
        out.push(header_of("idempotency-key", &hint.key));
        out.push(header_of("idempotency-scope-hash", &hint.scope_hash));
        assert(header_views(out@) =~= before + seq![
            text_header(("idempotency-key"@, hint.key@)),
            text_header(("idempotency-scope-hash"@, hint.scope_hash@)),
        ]);
    } else {
        assert(header_views(out@) =~= before + seq![]);
    }
    out
}

/// The headers of a record of the `rdkafka` crate.
#[verifier::external_type_specification]
#[verifier::external_body]
pub struct ExOwnedHeaders(rdkafka::message::OwnedHeaders);

/// The headers that have been put into a record's headers, in order.
pub uninterp spec fn owned_headers(headers: rdkafka::message::OwnedHeaders) -> Seq<
    (Seq<char>, Seq<u8>),
>;

/// No header has been put in.
pub open spec fn no_headers() -> Seq<(Seq<char>, Seq<u8>)> {
    Seq::empty()
}

/// Calls `rdkafka::message::OwnedHeaders::new`: there are no headers yet.
#[verifier::external_body]
fn new_owned_headers() -> (headers: OwnedHeaders)
    ensures
        owned_headers(headers) == no_headers(),
{
    OwnedHeaders::new()
}

/// How many headers a record takes. The client library keeps them in a list whose size is
/// a C `int`: it starts at 5 and triples whenever it is full, up to 5 times the 18th power
/// of 3. The size after that does not fit.
pub const MAX_RECORD_HEADERS: usize = 1_937_102_445;

/// Calls `rdkafka::message::OwnedHeaders::insert` with a value: the header comes
/// behind the ones that are there. It is for a list that still has room or can still be
/// enlarged, see [`MAX_RECORD_HEADERS`].
#[verifier::external_body]
fn insert_header(headers: OwnedHeaders, name: &str, value: &[u8]) -> (out: OwnedHeaders)
    requires
        owned_headers(headers).len() < MAX_RECORD_HEADERS,
    ensures
        owned_headers(out) == owned_headers(headers).push((name@, value@)),
{
    headers.insert(rdkafka::message::Header { key: name, value: Some(value) })
}

/// Puts the given headers, in order, into the form that a record takes.
pub fn record_headers(pairs: &Vec<(String, Vec<u8>)>) -> (headers: OwnedHeaders)
    requires
        pairs@.len() <= MAX_RECORD_HEADERS,
    ensures
        owned_headers(headers) == header_views(pairs@),
{
    let mut headers = new_owned_headers();
    let ghost views = header_views(pairs@);
    assert(views.take(0) =~= no_headers());
    let mut i: usize = 0;
    while i < pairs.len()
        invariant
            i <= pairs.len(),
            pairs@.len() <= MAX_RECORD_HEADERS,
            views == header_views(pairs@),
            owned_headers(headers) == views.take(i as int),
        decreases pairs.len() - i,
    {
        headers = insert_header(headers, &pairs[i].0, &pairs[i].1);
        assert(views.take(i + 1) =~= views.take(i as int).push(header_view(pairs@[i as int])));
        i += 1;
    }
    assert(views.take(i as int) =~= views);
    headers
}

/// A lower-case hexadecimal digit.
pub open spec fn is_hex_digit(c: char) -> bool {
    ('0' <= c && c <= '9') || ('a' <= c && c <= 'f')
}

/// The hyphenated lower-case text of a version 4 UUID.
pub open spec fn is_random_uuid(text: Seq<char>) -> bool {
    &&& text.len() == 36
    &&& forall|i: int|
        #![trigger text[i]]
        0 <= i < 36 ==> if i == 8 || i == 13 || i == 18 || i == 23 {
            text[i] == '-'
        } else {
            is_hex_digit(text[i])
        }
    &&& text[14] == '4'
    &&& text[19] == '8' || text[19] == '9' || text[19] == 'a' || text[19] == 'b'
}

/// Calls `uuid::Uuid::new_v4` and renders the UUID. Of every outcome it holds that
/// the text is that of a version 4 UUID; that no UUID comes twice rests on chance
/// and is not claimed. The operating system's random source is assumed to work.
#[verifier::external_body]
pub(crate) fn random_uuid() -> (text: String)
    ensures
        is_random_uuid(text@),
{
    uuid::Uuid::new_v4().to_string()
}

/// What a call gives back.
#[derive(Debug)]
pub struct BackendResponse {
    /// The reply payload, cut off at the cap.
    pub payload: Vec<u8>,
    /// Whether the cap cut something off.
    pub truncated: bool,
}

/// What a [`BackendResponse`] holds.
pub ghost struct ResponseView {
    /// See [`BackendResponse::payload`].
    pub payload: Seq<u8>,
    /// See [`BackendResponse::truncated`].
    pub truncated: bool,
}

impl View for BackendResponse {
    type V = ResponseView;

    open spec fn view(&self) -> ResponseView {
        ResponseView { payload: self.payload@, truncated: self.truncated }
    }
}

/// The response to a reply whose body is `body` under a cap of `max` bytes.
pub open spec fn capped(body: Seq<u8>, max: usize) -> ResponseView {
    if body.len() > max {
        ResponseView { payload: body.take(max as int), truncated: true }
    } else {
        ResponseView { payload: body, truncated: false }
    }
}

/// Cuts a reply body off at the cap.
pub fn cap_response(body: Vec<u8>, max_response_bytes: usize) -> (response: BackendResponse)
    ensures
        response@ == capped(body@, max_response_bytes),
{
    let truncated = body.len() > max_response_bytes;
    let mut payload = body;
    if truncated {
        payload.truncate(max_response_bytes);
        assert(payload@ =~= body@.take(max_response_bytes as int));
    }
    BackendResponse { payload, truncated }
}

/// A header of a received record: its name, and its value if it has one.
pub type ReplyHeader = (String, Option<Vec<u8>>);

/// The name and the value of a received header.
pub type ReplyHeaderView = (Seq<char>, Option<Seq<u8>>);

/// The characters and bytes of a received header.
pub open spec fn reply_header_view(header: ReplyHeader) -> ReplyHeaderView {
    (
        header.0@,
        match header.1 {
            Some(v) => Some(v@),
            None => None,
        },
    )
}

/// The characters and bytes of the headers of a received record.
pub open spec fn reply_header_views(headers: Seq<ReplyHeader>) -> Seq<ReplyHeaderView> {
    headers.map_values(|h: ReplyHeader| reply_header_view(h))
}

/// Some header is named `correlation_id` and holds the UTF-8 of `correlation_id`.
pub open spec fn is_correlated(headers: Seq<ReplyHeaderView>, correlation_id: Seq<char>) -> bool {
    headers.contains(("correlation_id"@, Some(encode_utf8(correlation_id))))
}

/// Whether two byte strings are equal.
fn same_bytes(a: &[u8], b: &[u8]) -> (same: bool)
    ensures
        same == (a@ == b@),
{
    if a.len() != b.len() {
        return false;
    }
    let mut i: usize = 0;
    while i < a.len()
        invariant
            i <= a.len(),
            a.len() == b.len(),
            forall|j: int| 0 <= j < i ==> a@[j] == b@[j],
        decreases a.len() - i,
    {
        if a[i] != b[i] {
            return false;
        }
        i += 1;
    }
    assert(a@ =~= b@);
    true
}

/// Whether the headers of a received record carry the correlation id of a call.
pub fn reply_matches(headers: &Vec<ReplyHeader>, correlation_id: &str) -> (matched: bool)
    ensures
        matched == is_correlated(reply_header_views(headers@), correlation_id@),
{
    let ghost views = reply_header_views(headers@);
    let ghost wanted = ("correlation_id"@, Some(encode_utf8(correlation_id@)));
    let mut i: usize = 0;
    while i < headers.len()
        invariant
            i <= headers.len(),
            views == reply_header_views(headers@),
            wanted == ("correlation_id"@, Some(encode_utf8(correlation_id@))),
            forall|j: int| 0 <= j < i ==> views[j] != wanted,
        decreases headers.len() - i,
    {
        assert(views[i as int] == reply_header_view(headers@[i as int]));
        if same_text(&headers[i].0, "correlation_id") {
            if let Some(value) = &headers[i].1 {
                if same_bytes(value, correlation_id.as_bytes()) {
                    assert(views[i as int] == wanted);
                    return true;
                }
            }
        }
        i += 1;
    }
    false
}

/// What comes of one wait for a reply.
pub enum ReplyEvent {
    /// A record came in. A record without headers counts as one with none, and one
    /// without a payload as one with an empty payload.
    Message { headers: Vec<ReplyHeader>, payload: Vec<u8> },
    /// The consumer failed.
    ConsumeFailed { cause: String },
    /// The rest of the budget went by.
    BudgetSpent,
}

/// What [`ReplyEvent`]s hold.
pub ghost enum ReplyEventView {
    /// See [`ReplyEvent::Message`].
    Message(Seq<ReplyHeaderView>, Seq<u8>),
    /// See [`ReplyEvent::ConsumeFailed`].
    ConsumeFailed(Seq<char>),
    /// See [`ReplyEvent::BudgetSpent`].
    BudgetSpent,
}

impl View for ReplyEvent {
    type V = ReplyEventView;

    open spec fn view(&self) -> ReplyEventView {
        match self {
            ReplyEvent::Message { headers, payload } => ReplyEventView::Message(
                reply_header_views(headers@),
                payload@,
            ),
            ReplyEvent::ConsumeFailed { cause } => ReplyEventView::ConsumeFailed(cause@),
            ReplyEvent::BudgetSpent => ReplyEventView::BudgetSpent,
        }
    }
}

/// What the caller of a [`PendingReply`] does next.
pub enum ReplyStep {
    /// Wait on.
    KeepWaiting,
    /// The call is over.
    Finished(Result<BackendResponse, BackendError>),
}

/// How a call ends.
pub type OutcomeView = Result<ResponseView, BackendErrorView>;

/// How a call ends.
pub open spec fn outcome_view(outcome: Result<BackendResponse, BackendError>) -> OutcomeView {
    match outcome {
        Ok(r) => Ok(r@),
        Err(e) => Err(e@),
    }
}

/// How a step ends the call, if it does.
pub open spec fn step_view(step: ReplyStep) -> Option<OutcomeView> {
    match step {
        ReplyStep::KeepWaiting => None,
        ReplyStep::Finished(outcome) => Some(outcome_view(outcome)),
    }
}

/// How many nanoseconds of a budget of `timeout_ms` are left when `elapsed_nanos` have gone
/// by since the call began. Nothing left is a timeout.
pub fn remaining_budget(timeout_ms: u64, elapsed_nanos: u128) -> (left: Result<u128, BackendError>)
    ensures
        match left {
            Ok(n) => 0 < n && n == timeout_ms * 1_000_000 - elapsed_nanos,
            Err(e) => {
                &&& elapsed_nanos >= timeout_ms * 1_000_000
                &&& e@ == BackendErrorView::Timeout(timeout_ms)
            },
        },
{
    let budget: u128 = timeout_ms as u128 * 1_000_000;
    if elapsed_nanos >= budget {
        Err(BackendError::Timeout { timeout_ms })
    } else {
        Ok(budget - elapsed_nanos)
    }
}

/// A call whose record is out and whose reply is awaited.
#[derive(Debug)]
pub struct PendingReply {
    /// The id that the reply has to carry.
    pub correlation_id: String,
    /// The budget.
    pub timeout_ms: u64,
    /// The cap of the reply payload.
    pub max_response_bytes: usize,
}

/// What is known of a call whose reply is awaited.
pub ghost struct PendingView {
    /// See [`PendingReply::correlation_id`].
    pub correlation_id: Seq<char>,
    /// See [`PendingReply::timeout_ms`].
    pub timeout_ms: u64,
    /// See [`PendingReply::max_response_bytes`].
    pub max_response_bytes: usize,
}

impl View for PendingReply {
    type V = PendingView;

    open spec fn view(&self) -> PendingView {
        PendingView {
            correlation_id: self.correlation_id@,
            timeout_ms: self.timeout_ms,
            max_response_bytes: self.max_response_bytes,
        }
    }
}

impl PendingView {
    /// The budget in nanoseconds.
    pub open spec fn budget_nanos(self) -> nat {
        self.timeout_ms as nat * 1_000_000
    }

    /// How `event` ends the call, if it does. A record that does not carry the
    /// correlation id is skipped.
    pub open spec fn answer(self, event: ReplyEventView) -> Option<OutcomeView> {
        match event {
            ReplyEventView::Message(headers, payload) => if is_correlated(
                headers,
                self.correlation_id,
            ) {
                Some(Ok(capped(payload, self.max_response_bytes)))
            } else {
                None
            },
            ReplyEventView::ConsumeFailed(cause) => Some(
                Err(
                    BackendErrorView::Transport(
                        transport_message(TransportStep::Consume, cause),
                    ),
                ),
            ),
            ReplyEventView::BudgetSpent => Some(Err(BackendErrorView::Timeout(self.timeout_ms))),
        }
    }

    /// How the call ends, if it does within `waits`. Each wait is the time, in
    /// nanoseconds since the call began, at which it begins and what comes
    /// of it; no wait begins once the budget is used up.
    pub open spec fn outcome(self, waits: Seq<(nat, ReplyEventView)>) -> Option<OutcomeView>
        decreases waits.len(),
    {
        if waits.len() == 0 {
            None
        } else if waits[0].0 >= self.budget_nanos() {
            Some(Err(BackendErrorView::Timeout(self.timeout_ms)))
        } else {
            match self.answer(waits[0].1) {
                Some(outcome) => Some(outcome),
                None => self.outcome(waits.drop_first()),
            }
        }
    }

    /// Wait `i` begins within the budget and is skipped.
    pub open spec fn skips(self, waits: Seq<(nat, ReplyEventView)>, i: int) -> bool {
        waits[i].0 < self.budget_nanos() && self.answer(waits[i].1) is None
    }
}

impl PendingReply {
    /// How many nanoseconds of the budget are left when `elapsed_nanos` have gone by
    /// since the call began. Nothing left is a timeout.
    pub fn remaining_nanos(&self, elapsed_nanos: u128) -> (left: Result<u128, BackendError>)
        ensures
            match left {
                Ok(n) => 0 < n && n == self@.budget_nanos() - elapsed_nanos,
                Err(e) => {
                    &&& elapsed_nanos >= self@.budget_nanos()
                    &&& e@ == BackendErrorView::Timeout(self.timeout_ms)
                },
            },
            self@.budget_nanos() == self.timeout_ms * 1_000_000,
    {
        remaining_budget(self.timeout_ms, elapsed_nanos)
    }

    /// Answers what came of one wait.
    pub fn on_event(&self, event: ReplyEvent) -> (step: ReplyStep)
        ensures
            step_view(step) == self@.answer(event@),
    {
        match event {
            ReplyEvent::Message { headers, payload } => {
                if reply_matches(&headers, &self.correlation_id) {
                    ReplyStep::Finished(Ok(cap_response(payload, self.max_response_bytes)))
                } else {
                    ReplyStep::KeepWaiting
                }
            },
            ReplyEvent::ConsumeFailed { cause } => ReplyStep::Finished(
                Err(transport_error(&TransportStep::Consume, &cause)),
            ),
            ReplyEvent::BudgetSpent => ReplyStep::Finished(
                Err(BackendError::Timeout { timeout_ms: self.timeout_ms }),
            ),
        }
    }
}

/// The headers of an outbound record as a consumer receives them.
pub open spec fn as_received(headers: Seq<HeaderView>) -> Seq<ReplyHeaderView> {
    headers.map_values(|h: HeaderView| (h.0, Some(h.1)))
}

/// A reply that echoes the headers of the request is matched to it.
pub proof fn law_echoed_headers_match(
    correlation_id: Seq<char>,
    headers: Seq<PairView>,
    hint: Option<PairView>,
)
    ensures
        is_correlated(
            as_received(outbound_headers(correlation_id, headers, hint)),
            correlation_id,
        ),
{
    let out = as_received(outbound_headers(correlation_id, headers, hint));
    assert(out[0] == ("correlation_id"@, Some(encode_utf8(correlation_id))));
}

/// The correlation id comes first, and every header of the request is passed on behind it,
/// in order and as it is.
pub proof fn law_request_headers_are_forwarded(
    correlation_id: Seq<char>,
    headers: Seq<PairView>,
    hint: Option<PairView>,
)
    ensures
        ({
            let out = outbound_headers(correlation_id, headers, hint);
            &&& out.len() == headers.len() + 1 + if hint is Some {
                2int
            } else {
                0int
            }
            &&& out[0] == ("correlation_id"@, encode_utf8(correlation_id))
            &&& forall|i: int|
                0 <= i < headers.len() ==> #[trigger] out[i + 1] == (
                    headers[i].0,
                    encode_utf8(headers[i].1),
                )
        }),
{
}

/// A reply that carries one correlation id and no other is not matched to a call
/// with another.
pub proof fn law_replies_are_not_mixed_up(
    headers: Seq<ReplyHeaderView>,
    carried: Seq<char>,
    awaited: Seq<char>,
)
    requires
        carried != awaited,
        forall|i: int|
            0 <= i < headers.len() && (#[trigger] headers[i]).0 == "correlation_id"@
                ==> headers[i].1 == Some(encode_utf8(carried)),
    ensures
        !is_correlated(headers, awaited),
{
    if is_correlated(headers, awaited) {
        encode_utf8_decode_utf8(carried);
        encode_utf8_decode_utf8(awaited);
    }
}

/// The idempotency headers are there if and only if the gateway gives a hint (and
/// passes on no header of that name), and then they hold what the hint says.
pub proof fn law_idempotency_headers_follow_the_hint(
    correlation_id: Seq<char>,
    headers: Seq<PairView>,
    hint: Option<PairView>,
)
    requires
        forall|i: int|
            0 <= i < headers.len() ==> (#[trigger] headers[i]).0 != "idempotency-key"@
                && headers[i].0 != "idempotency-scope-hash"@,
    ensures
        ({
            let out = outbound_headers(correlation_id, headers, hint);
            &&& forall|value: Seq<u8>|
                out.contains(("idempotency-key"@, value)) <==> (hint matches Some(h) && value
                    == encode_utf8(h.0))
            &&& forall|value: Seq<u8>|
                out.contains(("idempotency-scope-hash"@, value)) <==> (hint matches Some(h)
                    && value == encode_utf8(h.1))
        }),
{
    reveal_strlit("correlation_id");
    reveal_strlit("idempotency-key");
    reveal_strlit("idempotency-scope-hash");
    let out = outbound_headers(correlation_id, headers, hint);
    let n = headers.len() as int;
    assert("correlation_id"@[0] == 'c');
    assert("idempotency-key"@[0] == 'i');
    assert("idempotency-scope-hash"@[0] == 'i');
    assert("idempotency-key"@.len() != "idempotency-scope-hash"@.len());
    assert forall|i: int| 0 < i <= n implies {
        &&& (#[trigger] out[i]).0 != "idempotency-key"@
        &&& out[i].0 != "idempotency-scope-hash"@
    } by {
        assert(out[i].0 == headers[i - 1].0);
    }
    assert(out[0].0 == "correlation_id"@);
    if let Some(h) = hint {
        assert(out[n + 1] == text_header(("idempotency-key"@, h.0)));
        assert(out[n + 2] == text_header(("idempotency-scope-hash"@, h.1)));
    }
}

/// The first correlated reply within the budget is the answer, whatever other
/// records come in before it.
pub proof fn law_first_correlated_reply_wins(
    pending: PendingView,
    waits: Seq<(nat, ReplyEventView)>,
    i: int,
    headers: Seq<ReplyHeaderView>,
    payload: Seq<u8>,
)
    requires
        0 <= i < waits.len(),
        forall|j: int|
            0 <= j < i ==> (#[trigger] waits[j]).0 < pending.timeout_ms * 1_000_000
                && is_foreign_record(waits[j].1, pending.correlation_id),
        waits[i].0 < pending.timeout_ms * 1_000_000,
        waits[i].1 == ReplyEventView::Message(headers, payload),
        headers.contains(("correlation_id"@, Some(encode_utf8(pending.correlation_id)))),
    ensures
        pending.outcome(waits) == Some(
            Ok::<ResponseView, BackendErrorView>(capped(payload, pending.max_response_bytes)),
        ),
        pending.outcome(waits) matches Some(Ok(response)) && {
            &&& payload.len() <= pending.max_response_bytes ==> response.payload == payload
                && !response.truncated
            &&& payload.len() > pending.max_response_bytes ==> response.payload == payload.take(
                pending.max_response_bytes as int,
            ) && response.truncated
        },
{
    assert forall|j: int| 0 <= j < i implies #[trigger] pending.skips(waits, j) by {
        assert(is_foreign_record(waits[j].1, pending.correlation_id));
    }
    lemma_skipped_waits(pending, waits, i);
}

/// `event` is a record none of whose headers is named `correlation_id` and holds the UTF-8 of
/// `correlation_id`.
pub open spec fn is_foreign_record(event: ReplyEventView, correlation_id: Seq<char>) -> bool {
    event matches ReplyEventView::Message(headers, _) && forall|k: int|
        0 <= k < headers.len() && (#[trigger] headers[k]).0 == "correlation_id"@
            ==> headers[k].1 != Some(encode_utf8(correlation_id))
}

/// A call is answered by its own reply and nothing else: if it ends well, it does so on a
/// record that came within the budget and carries the call's own correlation id, and every
/// record before it was a foreign one.
pub proof fn law_answer_is_the_own_reply(
    pending: PendingView,
    waits: Seq<(nat, ReplyEventView)>,
    response: ResponseView,
)
    requires
        pending.outcome(waits) == Some(Ok::<ResponseView, BackendErrorView>(response)),
    ensures
        exists|i: int|
            0 <= i < waits.len() && #[trigger] is_own_reply_at(pending, waits, i, response),
    decreases waits.len(),
{
    if waits.len() > 0 {
        assert(pending.budget_nanos() == pending.timeout_ms * 1_000_000);
        match pending.answer(waits[0].1) {
            Some(outcome) => {
                assert(is_own_reply_at(pending, waits, 0, response));
            },
            None => {
                let rest = waits.drop_first();
                law_answer_is_the_own_reply(pending, rest, response);
                let i = choose|i: int|
                    0 <= i < rest.len() && #[trigger] is_own_reply_at(pending, rest, i, response);
                assert(rest[i] == waits[i + 1]);
                assert forall|j: int| 0 <= j < i + 1 implies (#[trigger] waits[j]).0
                    < pending.timeout_ms * 1_000_000 && is_foreign_record(
                    waits[j].1,
                    pending.correlation_id,
                ) by {
                    if j > 0 {
                        assert(rest[j - 1] == waits[j]);
                    } else {
                        assert(!is_correlated(waits[0].1->Message_0, pending.correlation_id));
                    }
                }
                assert(is_own_reply_at(pending, waits, i + 1, response));
            },
        }
    }
}

/// Wait `i` begins within the budget and brings a record with the call's own correlation id
/// and a payload that is `response` but for the cap; the waits before it bring foreign
/// records, within the budget.
pub open spec fn is_own_reply_at(
    pending: PendingView,
    waits: Seq<(nat, ReplyEventView)>,
    i: int,
    response: ResponseView,
) -> bool {
    &&& waits[i].0 < pending.timeout_ms * 1_000_000
    &&& waits[i].1 matches ReplyEventView::Message(headers, payload) && headers.contains(
        ("correlation_id"@, Some(encode_utf8(pending.correlation_id))),
    ) && response.payload.is_prefix_of(payload) && (response.truncated <==> payload.len()
        > pending.max_response_bytes)
    &&& forall|j: int|
        0 <= j < i ==> (#[trigger] waits[j]).0 < pending.timeout_ms * 1_000_000
            && is_foreign_record(waits[j].1, pending.correlation_id)
}

/// Without a correlated reply within the budget the call ends in a timeout.
pub proof fn law_no_reply_is_a_timeout(
    pending: PendingView,
    waits: Seq<(nat, ReplyEventView)>,
    i: int,
)
    requires
        0 <= i < waits.len(),
        forall|j: int|
            0 <= j < i ==> (#[trigger] waits[j]).0 < pending.timeout_ms * 1_000_000
                && is_foreign_record(waits[j].1, pending.correlation_id),
        waits[i].0 >= pending.timeout_ms * 1_000_000 || waits[i].1 == ReplyEventView::BudgetSpent,
    ensures
        pending.outcome(waits) == Some(
            Err::<ResponseView, BackendErrorView>(BackendErrorView::Timeout(pending.timeout_ms)),
        ),
{
    assert forall|j: int| 0 <= j < i implies #[trigger] pending.skips(waits, j) by {
        assert(is_foreign_record(waits[j].1, pending.correlation_id));
    }
    lemma_skipped_waits(pending, waits, i);
}

/// Foreign records, however many, leave a call waiting as long as its budget lasts.
pub proof fn law_foreign_records_end_no_call(
    pending: PendingView,
    waits: Seq<(nat, ReplyEventView)>,
)
    requires
        forall|j: int|
            0 <= j < waits.len() ==> (#[trigger] waits[j]).0 < pending.timeout_ms * 1_000_000
                && is_foreign_record(waits[j].1, pending.correlation_id),
    ensures
        pending.outcome(waits) is None,
    decreases waits.len(),
{
    if waits.len() > 0 {
        let rest = waits.drop_first();
        assert(is_foreign_record(waits[0].1, pending.correlation_id));
        assert forall|j: int| 0 <= j < rest.len() implies (#[trigger] rest[j]).0
            < pending.timeout_ms * 1_000_000 && is_foreign_record(
            rest[j].1,
            pending.correlation_id,
        ) by {
            assert(rest[j] == waits[j + 1]);
        }
        law_foreign_records_end_no_call(pending, rest);
    }
}

/// A failure of the consumer ends a call with that failure.
pub proof fn law_consumer_failure_ends_a_call(
    pending: PendingView,
    waits: Seq<(nat, ReplyEventView)>,
    i: int,
    cause: Seq<char>,
)
    requires
        0 <= i < waits.len(),
        forall|j: int|
            0 <= j < i ==> (#[trigger] waits[j]).0 < pending.timeout_ms * 1_000_000
                && is_foreign_record(waits[j].1, pending.correlation_id),
        waits[i].0 < pending.timeout_ms * 1_000_000,
        waits[i].1 == ReplyEventView::ConsumeFailed(cause),
    ensures
        pending.outcome(waits) == Some(
            Err::<ResponseView, BackendErrorView>(
                BackendErrorView::Transport("Kafka consume: "@ + cause),
            ),
        ),
{
    assert forall|j: int| 0 <= j < i implies #[trigger] pending.skips(waits, j) by {
        assert(is_foreign_record(waits[j].1, pending.correlation_id));
    }
    lemma_skipped_waits(pending, waits, i);
}

/// One record ends a call if and only if one of its headers is named `correlation_id` and
/// holds the UTF-8 of the call's own id. The caller then gets its payload: whole and unmarked
/// if it is no longer than the cap, and otherwise exactly as many of its bytes as the cap
/// allows, marked.
pub proof fn law_record_ends_only_its_own_call(
    pending: PendingReply,
    headers: Vec<ReplyHeader>,
    payload: Vec<u8>,
    step: ReplyStep,
)
    requires
        call_ensures(
            PendingReply::on_event,
            (&pending, ReplyEvent::Message { headers, payload }),
            step,
        ),
    ensures
        (forall|k: int|
            0 <= k < headers@.len() && (#[trigger] headers@[k]).0@ == "correlation_id"@ ==> !(
            headers@[k].1 matches Some(value) && value@ == encode_utf8(pending.correlation_id@)))
            ==> step is KeepWaiting,
        (exists|k: int|
            0 <= k < headers@.len() && (#[trigger] headers@[k]).0@ == "correlation_id"@ && (
            headers@[k].1 matches Some(value) && value@ == encode_utf8(pending.correlation_id@)))
            ==> (step matches ReplyStep::Finished(Ok(response)) && {
            &&& payload@.len() <= pending.max_response_bytes ==> response.payload@ == payload@
                && !response.truncated
            &&& payload@.len() > pending.max_response_bytes ==> response.payload@
                == payload@.take(pending.max_response_bytes as int) && response.truncated
        }),
{
    law_correlation_is_in_the_headers(headers@, pending.correlation_id@);
}

/// A record is correlated with an id if and only if some header of it is named
/// `correlation_id` and holds the UTF-8 of that id.
pub proof fn law_correlation_is_in_the_headers(
    headers: Seq<ReplyHeader>,
    correlation_id: Seq<char>,
)
    ensures
        is_correlated(reply_header_views(headers), correlation_id) <==> exists|k: int|
            0 <= k < headers.len() && (#[trigger] headers[k]).0@ == "correlation_id"@ && (
            headers[k].1 matches Some(value) && value@ == encode_utf8(correlation_id)),
{
    let views = reply_header_views(headers);
    let wanted = ("correlation_id"@, Some(encode_utf8(correlation_id)));
    assert(forall|k: int|
        0 <= k < headers.len() ==> #[trigger] views[k] == reply_header_view(headers[k]));
    if views.contains(wanted) {
        let k = choose|k: int| 0 <= k < views.len() && views[k] == wanted;
        assert(headers[k].0@ == "correlation_id"@);
    }
    if exists|k: int|
        0 <= k < headers.len() && (#[trigger] headers[k]).0@ == "correlation_id"@ && (
        headers[k].1 matches Some(value) && value@ == encode_utf8(correlation_id)) {
        let k = choose|k: int|
            0 <= k < headers.len() && (#[trigger] headers[k]).0@ == "correlation_id"@ && (
            headers[k].1 matches Some(value) && value@ == encode_utf8(correlation_id));
        assert(views[k] == wanted);
    }
}

/// A spent budget ends a call in a timeout that names the budget, and a failed consumer in
/// that failure.
pub proof fn law_other_events_end_the_call(
    pending: PendingReply,
    cause: String,
    spent: ReplyStep,
    failed: ReplyStep,
)
    requires
        call_ensures(PendingReply::on_event, (&pending, ReplyEvent::BudgetSpent), spent),
        call_ensures(
            PendingReply::on_event,
            (&pending, ReplyEvent::ConsumeFailed { cause }),
            failed,
        ),
    ensures
        spent matches ReplyStep::Finished(Err(BackendError::Timeout { timeout_ms })) && timeout_ms
            == pending.timeout_ms,
        failed matches ReplyStep::Finished(Err(BackendError::Transport { message })) && message@
            == "Kafka consume: "@ + cause@,
{
}

/// The headers of a request's record, by position: the correlation id, the request's own
/// headers in order, and, only with an idempotency hint, its key and its scope hash. Each
/// value is the UTF-8 of its text.
pub proof fn law_record_headers_by_position<I>(
    correlation_id: &str,
    request: BackendRequest<I>,
    headers: Vec<(String, Vec<u8>)>,
)
    requires
        call_ensures(build_outbound_headers::<I>, (correlation_id, &request), headers),
    ensures
        is_record_of(correlation_id@, request, headers@),
{
    lemma_record_headers(correlation_id@, request, headers@);
}

/// The headers of a request's record, by position: the correlation id, the request's own
/// headers in order, and, only with an idempotency hint, its key and its scope hash. Each
/// value is the UTF-8 of its text.
pub open spec fn is_record_of<I>(
    correlation_id: Seq<char>,
    request: BackendRequest<I>,
    out: Seq<(String, Vec<u8>)>,
) -> bool {
    &&& out.len() == request.headers@.len() + match request.idempotency {
        Some(_) => 3int,
        None => 1int,
    }
    &&& out[0].0@ == "correlation_id"@ && out[0].1@ == encode_utf8(correlation_id)
    &&& forall|i: int|
        0 <= i < request.headers@.len() ==> (#[trigger] request.headers@[i]).0@ == out[i + 1].0@
            && out[i + 1].1@ == encode_utf8(request.headers@[i].1@)
    &&& request.idempotency matches Some(hint) ==> {
        let n = request.headers@.len() as int;
        &&& out[n + 1].0@ == "idempotency-key"@
        &&& out[n + 1].1@ == encode_utf8(hint.key@)
        &&& out[n + 2].0@ == "idempotency-scope-hash"@
        &&& out[n + 2].1@ == encode_utf8(hint.scope_hash@)
    }
}

/// The headers of a request's record are those of [`is_record_of`].
pub(crate) proof fn lemma_record_headers<I>(
    correlation_id: Seq<char>,
    request: BackendRequest<I>,
    out: Seq<(String, Vec<u8>)>,
)
    requires
        header_views(out) == outbound_headers(
            correlation_id,
            pair_views(request.headers@),
            hint_view(request.idempotency),
        ),
    ensures
        is_record_of(correlation_id, request, out),
        out.len() == outbound_count(request),
{
    let views = header_views(out);
    let n = request.headers@.len() as int;
    assert(views.len() == out.len());
    assert(forall|i: int|
        0 <= i < out.len() ==> #[trigger] views[i] == (out[i].0@, out[i].1@));
    assert(views[0] == ("correlation_id"@, encode_utf8(correlation_id)));
    assert forall|i: int| 0 <= i < n implies (#[trigger] request.headers@[i]).0@ == out[i + 1].0@
        && out[i + 1].1@ == encode_utf8(request.headers@[i].1@) by {
        assert(views[i + 1] == text_header(pair_views(request.headers@)[i]));
    }
    if let Some(hint) = request.idempotency {
        assert(views[n + 1] == ("idempotency-key"@, encode_utf8(hint.key@)));
        assert(views[n + 2] == ("idempotency-scope-hash"@, encode_utf8(hint.scope_hash@)));
    }
}

/// Headers are handed to the client library as they are, in order.
pub proof fn law_headers_are_taken_as_they_are(headers: Seq<(String, Vec<u8>)>)
    ensures
        header_views(headers).len() == headers.len(),
        forall|i: int|
            0 <= i < headers.len() ==> #[trigger] header_views(headers)[i] == (
                headers[i].0@,
                headers[i].1@,
            ),
{
}

/// Skipped waits have no bearing on how a call ends.
proof fn lemma_skipped_waits(pending: PendingView, waits: Seq<(nat, ReplyEventView)>, i: int)
    requires
        0 <= i < waits.len(),
        forall|j: int| 0 <= j < i ==> #[trigger] pending.skips(waits, j),
    ensures
        pending.outcome(waits) == pending.outcome(waits.skip(i)),
        waits.skip(i)[0] == waits[i],
    decreases i,
{
    if i == 0 {
        assert(waits.skip(0) =~= waits);
    } else {
        let rest = waits.drop_first();
        assert(pending.skips(waits, 0));
        assert forall|j: int| 0 <= j < i - 1 implies #[trigger] pending.skips(rest, j) by {
            assert(pending.skips(waits, j + 1));
        }
        lemma_skipped_waits(pending, rest, i - 1);
        assert(rest.skip(i - 1) =~= waits.skip(i));
    }
}

/// A reply that is no longer than the cap comes back whole and unmarked; a longer one comes
/// back with exactly as many bytes as the cap allows, from its beginning, and marked.
pub proof fn law_cap_holds(body: Seq<u8>, max: usize)
    ensures
        body.len() <= max ==> capped(body, max).payload == body && !capped(body, max).truncated,
        body.len() > max ==> capped(body, max).payload.len() == max && capped(
            body,
            max,
        ).truncated,
        capped(body, max).payload.len() <= max,
        capped(body, max).payload.is_prefix_of(body),
        capped(body, max).truncated <==> capped(body, max).payload != body,
{
    if body.len() > max {
        assert(body.take(max as int).len() == max);
    }
}

/// What a capped response holds, byte for byte.
pub proof fn law_response_is_the_body_up_to_the_cap(
    body: Vec<u8>,
    max_response_bytes: usize,
    response: BackendResponse,
)
    requires
        call_ensures(cap_response, (body, max_response_bytes), response),
    ensures
        response.truncated <==> body@.len() > max_response_bytes,
        response.payload@.len() == if body@.len() > max_response_bytes {
            max_response_bytes as nat
        } else {
            body@.len()
        },
        forall|i: int|
            0 <= i < response.payload@.len() ==> #[trigger] response.payload@[i] == body@[i],
{
}

/// A higher cap never takes anything away: under two caps the shorter response is the
/// beginning of the longer one.
pub proof fn law_caps_only_cut_off(body: Seq<u8>, small: usize, large: usize)
    requires
        small <= large,
    ensures
        capped(body, small).payload.is_prefix_of(capped(body, large).payload),
        capped(body, large).truncated ==> capped(body, small).truncated,
        capped(body, small).payload.len() + (large - small) >= capped(body, large).payload.len(),
{
}


/// A call has what is left of its budget of milliseconds, to the nanosecond; nothing left is
/// a timeout that names the budget.
pub proof fn law_budget_is_what_is_left(
    pending: PendingReply,
    elapsed_nanos: u128,
    left: Result<u128, BackendError>,
)
    requires
        call_ensures(PendingReply::remaining_nanos, (&pending, elapsed_nanos), left),
    ensures
        left is Ok <==> elapsed_nanos < pending.timeout_ms * 1_000_000,
        left matches Ok(nanos) ==> nanos + elapsed_nanos == pending.timeout_ms * 1_000_000,
        left matches Err(e) ==> (e matches BackendError::Timeout { timeout_ms } && timeout_ms
            == pending.timeout_ms),
{
}

/// A record goes out with the given headers, in order and as they are.
pub proof fn law_record_takes_its_headers(
    pairs: Vec<(String, Vec<u8>)>,
    headers: OwnedHeaders,
)
    requires
        pairs@.len() <= 1_937_102_445,
        call_ensures(record_headers, (&pairs,), headers),
    ensures
        owned_headers(headers).len() == pairs@.len(),
        forall|i: int|
            0 <= i < pairs@.len() ==> #[trigger] owned_headers(headers)[i] == (
                pairs@[i].0@,
                pairs@[i].1@,
            ),
{
}

/// Headers are matched to a call if and only if one of them is named `correlation_id` and
/// holds the UTF-8 of the call's id.
pub proof fn law_headers_match_by_the_id(
    headers: Vec<ReplyHeader>,
    correlation_id: &str,
    matched: bool,
)
    requires
        call_ensures(reply_matches, (&headers, correlation_id), matched),
    ensures
        matched <==> exists|k: int|
            0 <= k < headers@.len() && (#[trigger] headers@[k]).0@ == "correlation_id"@ && (
            headers@[k].1 matches Some(value) && value@ == encode_utf8(correlation_id@)),
{
    law_correlation_is_in_the_headers(headers@, correlation_id@);
}

} // verus!
