//! The round trip of a call: subscribe to the response topic, produce the request, await
//! the correlated reply. Each step takes what came of the one before it. The request is
//! handed out once, and only by a call whose consumer is subscribed.
use rdkafka::message::OwnedHeaders;
use std::sync::Arc;
use vstd::prelude::*;
use vstd::utf8::*;

use crate::error::{
    error_label, transport_error, BackendError, BackendErrorView, TransportStep,
};
use crate::message::{
    build_outbound_headers, header_views, hint_view, is_random_uuid, outbound_count,
    outbound_headers, owned_headers, random_uuid, record_headers, BackendRequest,
    BackendResponse, HeaderView, PendingReply, PendingView, MAX_RECORD_HEADERS,
};
use crate::plugin::{is_valid_profile, ProfilesView};
use crate::profile::KafkaProfileRuntime;
use crate::text::pair_views;

verus! {

/// A record to produce. It has no key.
pub struct OutboundRecord {
    /// The topic it goes to.
    pub topic: String,
    /// Its payload.
    pub payload: Vec<u8>,
    /// Its headers.
    pub headers: OwnedHeaders,
}

/// What an [`OutboundRecord`] holds.
pub ghost struct RecordView {
    /// See [`OutboundRecord::topic`].
    pub topic: Seq<char>,
    /// See [`OutboundRecord::payload`].
    pub payload: Seq<u8>,
    /// See [`OutboundRecord::headers`].
    pub headers: Seq<HeaderView>,
}

impl View for OutboundRecord {
    type V = RecordView;

    open spec fn view(&self) -> RecordView {
        RecordView {
            topic: self.topic@,
            payload: self.payload@,
            headers: owned_headers(self.headers),
        }
    }
}

/// What is known of a call before its request is out.
pub ghost struct CallView<T> {
    /// The client of the whole call.
    pub client: Arc<T>,
    /// The topic replies are consumed from.
    pub response_topic: Seq<char>,
    /// The request.
    pub record: RecordView,
    /// The reply that is then awaited.
    pub pending: PendingView,
}

/// A call whose consumer is to be subscribed before the request goes out, so that no
/// reply is missed.
pub struct SubscribingCall<T> {
    client: Arc<T>,
    response_topic: String,
    record: OutboundRecord,
    pending: PendingReply,
}

/// A call whose consumer is subscribed and whose request is to be produced.
pub struct ProducingCall<T> {
    client: Arc<T>,
    response_topic: String,
    record: OutboundRecord,
    pending: PendingReply,
}

/// A call whose request has been handed out to be produced.
pub struct SendingCall<T> {
    client: Arc<T>,
    request_topic: String,
    pending: PendingReply,
}

/// What is known of a call whose request has been handed out.
pub ghost struct SendingView<T> {
    /// The client of the whole call.
    pub client: Arc<T>,
    /// The topic the request goes to.
    pub request_topic: Seq<char>,
    /// The reply that is then awaited.
    pub pending: PendingView,
}

/// What is left of a call once its request has been handed out.
pub open spec fn sending_of<T>(call: CallView<T>) -> SendingView<T> {
    SendingView {
        client: call.client,
        request_topic: call.record.topic,
        pending: call.pending,
    }
}

/// A call whose request is out and whose reply is awaited.
pub struct AwaitingCall<T> {
    /// The client of the whole call.
    pub client: Arc<T>,
    /// The reply.
    pub pending: PendingReply,
}

impl<T> View for SubscribingCall<T> {
    type V = CallView<T>;

    closed spec fn view(&self) -> CallView<T> {
        CallView {
            client: self.client,
            response_topic: self.response_topic@,
            record: self.record@,
            pending: self.pending@,
        }
    }
}

impl<T> View for ProducingCall<T> {
    type V = CallView<T>;

    closed spec fn view(&self) -> CallView<T> {
        CallView {
            client: self.client,
            response_topic: self.response_topic@,
            record: self.record@,
            pending: self.pending@,
        }
    }
}

impl<T> View for SendingCall<T> {
    type V = SendingView<T>;

    closed spec fn view(&self) -> SendingView<T> {
        SendingView {
            client: self.client,
            request_topic: self.request_topic@,
            pending: self.pending@,
        }
    }
}

/// The call of `request` through `client` under the correlation id `correlation_id`.
pub open spec fn call_of<T, H, I>(
    profile: KafkaProfileRuntime<T, H>,
    client: Arc<T>,
    request: BackendRequest<I>,
    correlation_id: Seq<char>,
) -> CallView<T> {
    CallView {
        client,
        response_topic: profile.response_topic@,
        record: RecordView {
            topic: profile.request_topic@,
            payload: request.payload@,
            headers: outbound_headers(
                correlation_id,
                pair_views(request.headers@),
                hint_view(request.idempotency),
            ),
        },
        pending: PendingView {
            correlation_id,
            timeout_ms: profile.timeout_ms,
            max_response_bytes: profile.max_response_bytes,
        },
    }
}

/// What the owner does to begin a call.
pub enum CallStart<T, I> {
    /// Subscribe the consumer, and so on.
    Started(SubscribingCall<T>),
    /// Resolve the caller's credentials and come back with the client they lead to, and the
    /// request.
    Resolve(BackendRequest<I>),
    /// Give up.
    Failed(BackendError),
}

/// The client of a call, if it is known: that of the binding, or the one that the caller's
/// credentials lead to. `resolved` is what came of resolving them, if that was done.
pub open spec fn call_client<T, H>(
    profile: KafkaProfileRuntime<T, H>,
    resolved: Option<Result<Arc<T>, BackendError>>,
) -> Option<Result<Arc<T>, BackendError>> {
    if profile.has_cred_refs {
        resolved
    } else {
        Some(Ok(profile.static_bundle))
    }
}

/// Begins the call of `request` under a given correlation id. A binding without credential
/// tokens has its client; for any other the caller's credentials are resolved first, and a
/// failure of that ends the call as it is, before anything is sent. The headers have to fit
/// into a record.
pub fn start_call_as<T, H, I>(
    profile: &KafkaProfileRuntime<T, H>,
    resolved: Option<Result<Arc<T>, BackendError>>,
    request: BackendRequest<I>,
    correlation_id: String,
) -> (start: CallStart<T, I>)
    requires
        call_client(*profile, resolved) matches Some(Ok(_)) ==> outbound_count(request)
            <= MAX_RECORD_HEADERS,
    ensures
        match call_client(*profile, resolved) {
            Some(Ok(client)) => start matches CallStart::Started(call) && call@ == call_of(
                *profile,
                client,
                request,
                correlation_id@,
            ),
            Some(Err(error)) => start == CallStart::<T, I>::Failed(error),
            None => start == CallStart::<T, I>::Resolve(request),
        },
{
    let client = match profile.static_client() {
        Some(client) => client,
        None => match resolved {
            None => {
                return CallStart::Resolve(request);
            },
            Some(Err(error)) => {
                return CallStart::Failed(error);
            },
            Some(Ok(client)) => client,
        },
    };
    let pairs = build_outbound_headers(&correlation_id, &request);
    assert(pairs@.len() == header_views(pairs@).len());
    let headers = record_headers(&pairs);
    CallStart::Started(
        SubscribingCall {
            client,
            response_topic: profile.response_topic.clone(),
            record: OutboundRecord {
                topic: profile.request_topic.clone(),
                payload: request.payload,
                headers,
            },
            pending: PendingReply {
                correlation_id,
                timeout_ms: profile.timeout_ms,
                max_response_bytes: profile.max_response_bytes,
            },
        },
    )
}

/// Begins the call of `request` under a fresh random correlation id, see [`start_call_as`].
/// That no two calls get the same id rests on chance and is not stated.
pub fn start_call<T, H, I>(
    profile: &KafkaProfileRuntime<T, H>,
    resolved: Option<Result<Arc<T>, BackendError>>,
    request: BackendRequest<I>,
) -> (start: CallStart<T, I>)
    requires
        call_client(*profile, resolved) matches Some(Ok(_)) ==> outbound_count(request)
            <= MAX_RECORD_HEADERS,
    ensures
        match call_client(*profile, resolved) {
            Some(Ok(client)) => start matches CallStart::Started(call) && {
                &&& is_random_uuid(call@.pending.correlation_id)
                &&& call@ == call_of(*profile, client, request, call@.pending.correlation_id)
            },
            Some(Err(error)) => start == CallStart::<T, I>::Failed(error),
            None => start == CallStart::<T, I>::Resolve(request),
        },
{
    let correlation_id = random_uuid();
    start_call_as(profile, resolved, request, correlation_id)
}

impl<T> SubscribingCall<T> {
    /// The client whose consumer is to be subscribed.
    pub fn client(&self) -> (client: &Arc<T>)
        ensures
            *client == self@.client,
    {
        &self.client
    }

    /// The topic to subscribe to.
    pub fn response_topic(&self) -> (topic: &str)
        ensures
            topic@ == self@.response_topic,
    {
        &self.response_topic
    }

    /// Goes on to produce the request if the consumer is subscribed, and ends the call
    /// otherwise. `outcome` is why it is not.
    pub fn subscribed(self, outcome: Result<(), String>) -> (next: Result<
        ProducingCall<T>,
        BackendError,
    >)
        ensures
            match outcome {
                Ok(_) => next matches Ok(call) && call@ == self@,
                Err(cause) => next matches Err(e) && e@ == BackendErrorView::Transport(
                    "subscribe to '"@ + self@.response_topic + "' failed: "@ + cause@,
                ),
            },
    {
        match outcome {
            Ok(_) => Ok(
                ProducingCall {
                    client: self.client,
                    response_topic: self.response_topic,
                    record: self.record,
                    pending: self.pending,
                },
            ),
            Err(cause) => Err(
                transport_error(&TransportStep::Subscribe { topic: self.response_topic }, &cause),
            ),
        }
    }
}

impl<T> ProducingCall<T> {
    /// Hands the request out to be produced.
    pub fn produce(self) -> (out: (OutboundRecord, SendingCall<T>))
        ensures
            out.0@ == self@.record,
            out.1@ == sending_of(self@),
    {
        let request_topic = self.record.topic.clone();
        (
            self.record,
            SendingCall { client: self.client, request_topic, pending: self.pending },
        )
    }
}

/// What comes of producing a request.
#[derive(Debug)]
pub enum SendOutcome {
    /// It is out.
    Sent,
    /// It could not be produced.
    Failed { cause: String },
    /// The budget of the call went by before it was out.
    BudgetSpent,
}

impl<T> SendingCall<T> {
    /// The client through which the request is to be produced.
    pub fn client(&self) -> (client: &Arc<T>)
        ensures
            *client == self@.client,
    {
        &self.client
    }

    /// How many nanoseconds of the budget are left when `elapsed_nanos` have gone by since
    /// the call began. Nothing left is a timeout.
    pub fn remaining_nanos(&self, elapsed_nanos: u128) -> (left: Result<u128, BackendError>)
        ensures
            match left {
                Ok(n) => 0 < n && n == self@.pending.budget_nanos() - elapsed_nanos,
                Err(e) => {
                    &&& elapsed_nanos >= self@.pending.budget_nanos()
                    &&& e@ == BackendErrorView::Timeout(self@.pending.timeout_ms)
                },
            },
            self@.pending.budget_nanos() == self@.pending.timeout_ms * 1_000_000,
    {
        self.pending.remaining_nanos(elapsed_nanos)
    }

    /// Goes on to await the reply if the request is out, and ends the call otherwise.
    pub fn produced(self, outcome: SendOutcome) -> (next: Result<AwaitingCall<T>, BackendError>)
        ensures
            match outcome {
                SendOutcome::Sent => next matches Ok(call) && {
                    &&& call.client == self@.client
                    &&& call.pending@ == self@.pending
                },
                SendOutcome::Failed { cause } => next matches Err(e) && e@
                    == BackendErrorView::Transport(
                    "produce to '"@ + self@.request_topic + "' failed: "@ + cause@,
                ),
                SendOutcome::BudgetSpent => next matches Err(e) && e@ == BackendErrorView::Timeout(
                    self@.pending.timeout_ms,
                ),
            },
    {
        match outcome {
            SendOutcome::Sent => Ok(AwaitingCall { client: self.client, pending: self.pending }),
            SendOutcome::Failed { cause } => Err(
                transport_error(&TransportStep::Produce { topic: self.request_topic }, &cause),
            ),
            SendOutcome::BudgetSpent => Err(
                BackendError::Timeout { timeout_ms: self.pending.timeout_ms },
            ),
        }
    }
}

/// A call goes to the topics, and runs under the budget and the cap, of the binding that was
/// registered under its name when it began, and through one client up to the wait for its
/// reply: the binding's own if its spec carries no credential token, and otherwise the one
/// that the caller's credentials led to. What is registered under that name meanwhile has no
/// part in it.
pub proof fn law_call_keeps_its_binding<T, H, I>(
    at_start: ProfilesView<T, H>,
    backend_name: Seq<char>,
    group_id: Seq<char>,
    resolved: Option<Result<Arc<T>, BackendError>>,
    request: BackendRequest<I>,
    correlation_id: Seq<char>,
)
    requires
        at_start.contains_key(backend_name),
        is_valid_profile(*at_start[backend_name], group_id),
    ensures
        ({
            let profile = *at_start[backend_name];
            let spec = profile.cfg@;
            &&& profile.tokens@.all().len() == 0 ==> call_client(profile, resolved) == Some(
                Ok::<_, BackendError>(profile.static_bundle),
            )
            &&& profile.tokens@.all().len() > 0 ==> call_client(profile, resolved) == resolved
            &&& call_client(profile, resolved) matches Some(Ok(client)) ==> {
                let call = call_of(profile, client, request, correlation_id);
                &&& call.client == client
                &&& call.response_topic == spec.response_topic
                &&& call.record.topic == spec.request_topic
                &&& call.record.payload == request.payload@
                &&& sending_of(call) == (SendingView {
                    client,
                    request_topic: spec.request_topic,
                    pending: PendingView {
                        correlation_id,
                        timeout_ms: spec.timeout_ms,
                        max_response_bytes: spec.max_response_bytes,
                    },
                })
            }
        }),
{
}

/// The metric labels of a call.
#[derive(Debug)]
pub struct CallLabels {
    /// The `outcome` label.
    pub outcome: &'static str,
    /// The `error_kind` label, for a call that failed.
    pub error_kind: Option<&'static str>,
}

/// The metric labels of a call that ended in `outcome`.
pub fn call_labels(outcome: &Result<BackendResponse, BackendError>) -> (labels: CallLabels)
    ensures
        match outcome {
            Ok(_) => labels.outcome@ == "ok"@ && labels.error_kind is None,
            Err(e) => {
                &&& labels.outcome@ == "error"@
                &&& labels.error_kind matches Some(kind) && kind@ == error_label(e@)
            },
        },
{
    match outcome {
        Ok(_) => CallLabels { outcome: "ok", error_kind: None },
        Err(e) => CallLabels { outcome: "error", error_kind: Some(e.label()) },
    }
}


/// A call through all its steps: it goes out through one client, the binding's own or the one
/// that was resolved for the caller, to the binding's request topic, with the payload and the
/// headers of the request under the correlation id of the call, and awaits the reply on the
/// binding's response topic under its budget and its cap.
pub proof fn law_call_carries_the_request<T, H, I>(
    profile: KafkaProfileRuntime<T, H>,
    resolved: Option<Result<Arc<T>, BackendError>>,
    request: BackendRequest<I>,
    correlation_id: String,
    started: SubscribingCall<T>,
    topic: &str,
    subscribed: ProducingCall<T>,
    handed_out: (OutboundRecord, SendingCall<T>),
    awaiting: AwaitingCall<T>,
)
    requires
        outbound_count(request) <= MAX_RECORD_HEADERS,
        call_ensures(
            start_call_as::<T, H, I>,
            (&profile, resolved, request, correlation_id),
            CallStart::Started(started),
        ),
        call_ensures(SubscribingCall::<T>::response_topic, (&started,), topic),
        call_ensures(
            SubscribingCall::<T>::subscribed,
            (started, Ok::<(), String>(())),
            Ok::<ProducingCall<T>, BackendError>(subscribed),
        ),
        call_ensures(ProducingCall::<T>::produce, (subscribed,), handed_out),
        call_ensures(
            SendingCall::<T>::produced,
            (handed_out.1, SendOutcome::Sent),
            Ok::<AwaitingCall<T>, BackendError>(awaiting),
        ),
    ensures
        !profile.has_cred_refs ==> awaiting.client == profile.static_bundle,
        profile.has_cred_refs ==> (resolved matches Some(Ok(client)) && awaiting.client == client),
        started@.client == awaiting.client,
        handed_out.1@.client == awaiting.client,
        handed_out.1@.request_topic == profile.request_topic@,
        handed_out.1@.pending.timeout_ms == profile.timeout_ms,
        topic@ == profile.response_topic@,
        handed_out.0.topic@ == profile.request_topic@,
        handed_out.0.payload@ == request.payload@,
        ({
            let headers = owned_headers(handed_out.0.headers);
            let n = request.headers@.len() as int;
            &&& headers.len() == n + match request.idempotency {
                Some(_) => 3int,
                None => 1int,
            }
            &&& headers[0] == ("correlation_id"@, encode_utf8(correlation_id@))
            &&& forall|i: int|
                0 <= i < n ==> headers[i + 1] == (
                    (#[trigger] request.headers@[i]).0@,
                    encode_utf8(request.headers@[i].1@),
                )
            &&& request.idempotency matches Some(hint) ==> {
                &&& headers[n + 1] == ("idempotency-key"@, encode_utf8(hint.key@))
                &&& headers[n + 2] == ("idempotency-scope-hash"@, encode_utf8(hint.scope_hash@))
            }
        }),
        awaiting.pending.correlation_id@ == correlation_id@,
        awaiting.pending.timeout_ms == profile.timeout_ms,
        awaiting.pending.max_response_bytes == profile.max_response_bytes,
{
    let headers = owned_headers(handed_out.0.headers);
    let n = request.headers@.len() as int;
    assert(headers == outbound_headers(
        correlation_id@,
        pair_views(request.headers@),
        hint_view(request.idempotency),
    ));
    assert forall|i: int| 0 <= i < n implies headers[i + 1] == (
        (#[trigger] request.headers@[i]).0@,
        encode_utf8(request.headers@[i].1@),
    ) by {
        assert(pair_views(request.headers@)[i] == (
            request.headers@[i].0@,
            request.headers@[i].1@,
        ));
    }
}

/// A call of a binding with credential tokens does not begin before the caller's credentials
/// are resolved: until then it asks for that and gives the request back, and a failure to
/// resolve them is its end, as it is. A call of any other binding begins at once.
pub proof fn law_call_begins_with_its_client<T, H, I>(
    profile: KafkaProfileRuntime<T, H>,
    resolved: Option<Result<Arc<T>, BackendError>>,
    request: BackendRequest<I>,
    correlation_id: String,
    start: CallStart<T, I>,
    random_start: CallStart<T, I>,
)
    requires
        outbound_count(request) <= MAX_RECORD_HEADERS,
        call_ensures(
            start_call_as::<T, H, I>,
            (&profile, resolved, request, correlation_id),
            start,
        ),
        call_ensures(start_call::<T, H, I>, (&profile, resolved, request), random_start),
    ensures
        start is Started <==> !profile.has_cred_refs || resolved matches Some(Ok(_)),
        profile.has_cred_refs && resolved is None ==> start == CallStart::<T, I>::Resolve(request),
        profile.has_cred_refs ==> (resolved matches Some(Err(error)) ==> start == CallStart::<
            T,
            I,
        >::Failed(error)),
        start is Started <==> random_start is Started,
        start !is Started ==> random_start == start,
        random_start matches CallStart::Started(call) ==> is_random_uuid(
            call@.pending.correlation_id,
        ),
        start matches CallStart::Started(a) ==> (random_start matches CallStart::Started(b) ==> {
            &&& a@.client == b@.client
            &&& a@.response_topic == b@.response_topic
            &&& a@.record.topic == b@.record.topic
            &&& a@.record.payload == b@.record.payload
            &&& b@.record.headers == a@.record.headers.update(
                0,
                ("correlation_id"@, encode_utf8(b@.pending.correlation_id)),
            )
            &&& a@.pending.timeout_ms == b@.pending.timeout_ms
            &&& a@.pending.max_response_bytes == b@.pending.max_response_bytes
        }),
{
    if let CallStart::Started(a) = start {
        if let CallStart::Started(b) = random_start {
            assert(b@.record.headers =~= a@.record.headers.update(
                0,
                ("correlation_id"@, encode_utf8(b@.pending.correlation_id)),
            ));
        }
    }
}

/// A call whose consumer could not be subscribed or whose request could not be produced ends
/// in a transport failure that names the topic and the cause, and one whose budget went by in
/// a timeout that names the budget. What is left of the budget is counted to the nanosecond.
pub proof fn law_failed_steps_end_the_call<T>(
    started: SubscribingCall<T>,
    sending: SendingCall<T>,
    cause: String,
    unsubscribed: Result<ProducingCall<T>, BackendError>,
    unsent: Result<AwaitingCall<T>, BackendError>,
    spent: Result<AwaitingCall<T>, BackendError>,
    elapsed_nanos: u128,
    left: Result<u128, BackendError>,
)
    requires
        call_ensures(
            SubscribingCall::<T>::subscribed,
            (started, Err::<(), String>(cause)),
            unsubscribed,
        ),
        call_ensures(
            SendingCall::<T>::produced,
            (sending, SendOutcome::Failed { cause }),
            unsent,
        ),
        call_ensures(SendingCall::<T>::produced, (sending, SendOutcome::BudgetSpent), spent),
        call_ensures(SendingCall::<T>::remaining_nanos, (&sending, elapsed_nanos), left),
    ensures
        unsubscribed matches Err(BackendError::Transport { message }) && message@
            == "subscribe to '"@ + started@.response_topic + "' failed: "@ + cause@,
        unsent matches Err(BackendError::Transport { message }) && message@ == "produce to '"@
            + sending@.request_topic + "' failed: "@ + cause@,
        spent matches Err(BackendError::Timeout { timeout_ms }) && timeout_ms
            == sending@.pending.timeout_ms,
        left is Ok <==> elapsed_nanos < sending@.pending.timeout_ms * 1_000_000,
        left matches Ok(nanos) ==> nanos + elapsed_nanos == sending@.pending.timeout_ms
            * 1_000_000,
        left matches Err(e) ==> (e matches BackendError::Timeout { timeout_ms } && timeout_ms
            == sending@.pending.timeout_ms),
{
}

/// A call that ends well is labelled `ok` and no kind of error; one that fails is labelled
/// `error` and the kind of its error.
pub proof fn law_labels_tell_how_the_call_ended(
    outcome: Result<BackendResponse, BackendError>,
    labels: CallLabels,
)
    requires
        call_ensures(call_labels, (&outcome,), labels),
    ensures
        outcome is Ok ==> labels.outcome@ == "ok"@ && labels.error_kind is None,
        outcome matches Err(e) ==> {
            &&& labels.outcome@ == "error"@
            &&& labels.error_kind matches Some(kind) && kind@ == match e {
                BackendError::ProfileNotFound { .. } => "profile_not_found"@,
                BackendError::Transport { .. } => "transport"@,
                BackendError::Timeout { .. } => "timeout"@,
                BackendError::InvalidSpec { .. } => "invalid_spec"@,
            }
        },
{
}

} // verus!
