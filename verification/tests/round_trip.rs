use mcpg_plugin_backend_kafka::call::{
    call_labels, start_call, start_call_as, CallStart, SendOutcome, SubscribingCall,
};
use mcpg_plugin_backend_kafka::credentials::{CredToken, CredTokens};
use mcpg_plugin_backend_kafka::error::{transport_error, BackendError, TransportStep};
use mcpg_plugin_backend_kafka::message::{
    build_outbound_headers, cap_response, record_headers, remaining_budget, reply_matches,
    BackendRequest, BackendResponse, IdempotencyHint, PendingReply, ReplyEvent, ReplyHeader, ReplyStep,
};
use mcpg_plugin_backend_kafka::profile::KafkaProfileRuntime;
use mcpg_plugin_backend_kafka::spec::{KafkaBackendFields, KafkaBackendSpec};
use rdkafka::message::Headers;
use std::sync::Arc;

fn request(headers: Vec<(String, String)>, idempotency: Option<IdempotencyHint>) -> BackendRequest<()> {
    BackendRequest {
        payload: b"{}".to_vec(),
        headers,
        request_id: "r1".into(),
        session_id: None,
        identity: None,
        idempotency,
    }
}

fn hint() -> IdempotencyHint {
    IdempotencyHint {
        key: "idem-test-key".to_owned(),
        scope_hash: "deadbeefdeadbeefdeadbeefdeadbeef".to_owned(),
    }
}

#[test]
fn outbound_message_carries_idempotency_headers() {
    let req = request(vec![], Some(hint()));
    let pairs = build_outbound_headers("corr-1", &req);
    let names: Vec<&str> = pairs.iter().map(|(k, _)| k.as_str()).collect();
    assert!(names.contains(&"idempotency-key"), "names: {names:?}");
    assert!(
        names.contains(&"idempotency-scope-hash"),
        "names: {names:?}"
    );
    assert!(
        names.contains(&"correlation_id"),
        "correlation_id must still be present; names: {names:?}"
    );
    let key_val = pairs
        .iter()
        .find(|(k, _)| k == "idempotency-key")
        .map(|(_, v)| v.clone())
        .unwrap();
    assert_eq!(String::from_utf8(key_val).unwrap(), "idem-test-key");
    let scope_val = pairs
        .iter()
        .find(|(k, _)| k == "idempotency-scope-hash")
        .map(|(_, v)| v.clone())
        .unwrap();
    assert_eq!(
        String::from_utf8(scope_val).unwrap(),
        "deadbeefdeadbeefdeadbeefdeadbeef"
    );
}

#[test]
fn outbound_message_omits_idempotency_headers_without_hint() {
    let req = request(vec![], None);
    let pairs = build_outbound_headers("corr-1", &req);
    let names: Vec<&str> = pairs.iter().map(|(k, _)| k.as_str()).collect();
    assert!(
        !names.contains(&"idempotency-key"),
        "must omit when hint absent; names: {names:?}"
    );
    assert!(
        !names.contains(&"idempotency-scope-hash"),
        "must omit when hint absent; names: {names:?}"
    );
}

#[test]
fn request_headers_are_forwarded_in_order() {
    let req = request(
        vec![
            ("traceparent".to_owned(), "00-ab-cd-01".to_owned()),
            ("x-ünicode".to_owned(), "é".to_owned()),
        ],
        Some(hint()),
    );
    let pairs = build_outbound_headers("corr-1", &req);
    let expected: Vec<(String, Vec<u8>)> = vec![
        ("correlation_id".to_owned(), b"corr-1".to_vec()),
        ("traceparent".to_owned(), b"00-ab-cd-01".to_vec()),
        ("x-ünicode".to_owned(), "é".as_bytes().to_vec()),
        ("idempotency-key".to_owned(), b"idem-test-key".to_vec()),
        (
            "idempotency-scope-hash".to_owned(),
            b"deadbeefdeadbeefdeadbeefdeadbeef".to_vec(),
        ),
    ];
    assert_eq!(pairs, expected);
}

#[test]
fn record_takes_the_headers_in_order() {
    let headers = record_headers(&vec![
        ("b".to_owned(), b"1".to_vec()),
        ("a".to_owned(), vec![]),
        ("b".to_owned(), vec![0, 255]),
    ]);
    assert_eq!(headers.count(), 3);
    assert_eq!(headers.get(0).key, "b");
    assert_eq!(headers.get(0).value, Some(&b"1"[..]));
    assert_eq!(headers.get(1).key, "a");
    assert_eq!(headers.get(1).value, Some(&b""[..]));
    assert_eq!(headers.get(2).key, "b");
    assert_eq!(headers.get(2).value, Some(&[0u8, 255][..]));
    assert_eq!(record_headers(&vec![]).count(), 0);
}

fn header(name: &str, value: Option<&[u8]>) -> ReplyHeader {
    (name.to_owned(), value.map(<[u8]>::to_vec))
}

#[test]
fn reply_is_matched_by_any_correlation_header() {
    assert!(reply_matches(
        &vec![
            header("x", Some(b"1")),
            header("correlation_id", Some(b"other")),
            header("correlation_id", Some(b"corr-1")),
        ],
        "corr-1"
    ));
    for headers in [
        vec![],
        vec![header("correlation_id", None)],
        vec![header("correlation_id", Some(b"corr-2"))],
        vec![header("correlation_id", Some(b"corr-1 "))],
        vec![header("Correlation_Id", Some(b"corr-1"))],
    ] {
        assert!(!reply_matches(&headers, "corr-1"));
    }
}

#[test]
fn echoed_headers_match() {
    let req = request(vec![("a".to_owned(), "b".to_owned())], Some(hint()));
    let echoed: Vec<ReplyHeader> = build_outbound_headers("corr-é", &req)
        .into_iter()
        .map(|(name, value)| (name, Some(value)))
        .collect();
    assert!(reply_matches(&echoed, "corr-é"));
    assert!(!reply_matches(&echoed, "corr-e"));
}

#[test]
fn response_is_cut_off_at_the_cap() {
    let cut = cap_response(b"abcdef".to_vec(), 4);
    assert_eq!(cut.payload, b"abcd");
    assert!(cut.truncated);
    let whole = cap_response(b"abcd".to_vec(), 4);
    assert_eq!(whole.payload, b"abcd");
    assert!(!whole.truncated);
    let empty = cap_response(vec![], 1);
    assert!(empty.payload.is_empty());
    assert!(!empty.truncated);
}

fn pending() -> PendingReply {
    PendingReply {
        correlation_id: "corr-1".to_owned(),
        timeout_ms: 10,
        max_response_bytes: 3,
    }
}

fn reply(id: &str, payload: &[u8]) -> ReplyEvent {
    ReplyEvent::Message {
        headers: vec![header("correlation_id", Some(id.as_bytes()))],
        payload: payload.to_vec(),
    }
}

/// Runs the waits of a call: each begins so many nanoseconds into the round trip.
fn outcome(
    pending: &PendingReply,
    waits: Vec<(u128, ReplyEvent)>,
) -> Option<Result<BackendResponse, BackendError>> {
    for (elapsed, event) in waits {
        if let Err(error) = pending.remaining_nanos(elapsed) {
            return Some(Err(error));
        }
        match pending.on_event(event) {
            ReplyStep::KeepWaiting => {}
            ReplyStep::Finished(outcome) => return Some(outcome),
        }
    }
    None
}

#[test]
fn budget_runs_down() {
    let pending = pending();
    assert_eq!(pending.remaining_nanos(0).ok(), Some(10_000_000));
    assert_eq!(pending.remaining_nanos(9_999_999).ok(), Some(1));
    for elapsed in [10_000_000, u128::MAX] {
        match pending.remaining_nanos(elapsed) {
            Err(BackendError::Timeout { timeout_ms }) => assert_eq!(timeout_ms, 10),
            _ => panic!("budget left"),
        }
    }
}

#[test]
fn first_correlated_reply_wins() {
    let got = outcome(
        &pending(),
        vec![
            (1, reply("other", b"x")),
            (2, ReplyEvent::Message { headers: vec![], payload: b"y".to_vec() }),
            (3, reply("corr-1", b"abcd")),
            (4, reply("corr-1", b"late")),
        ],
    );
    let response = got.expect("over").expect("reply");
    assert_eq!(response.payload, b"abc");
    assert!(response.truncated);
}

#[test]
fn no_reply_is_a_timeout() {
    for waits in [
        vec![(1, reply("other", b"x")), (2, ReplyEvent::BudgetSpent)],
        vec![(1, reply("other", b"x")), (10_000_000, reply("corr-1", b"late"))],
    ] {
        match outcome(&pending(), waits) {
            Some(Err(BackendError::Timeout { timeout_ms })) => assert_eq!(timeout_ms, 10),
            _ => panic!("no timeout"),
        }
    }
    assert!(outcome(&pending(), vec![(1, reply("other", b"x"))]).is_none());
}

#[test]
fn consumer_failure_ends_the_call() {
    let failed = ReplyEvent::ConsumeFailed {
        cause: "broker gone".to_owned(),
    };
    match outcome(&pending(), vec![(1, failed)]) {
        Some(Err(BackendError::Transport { message })) => {
            assert_eq!(message, "Kafka consume: broker gone");
        }
        _ => panic!("no transport error"),
    }
}

fn profile() -> KafkaProfileRuntime<(), ()> {
    profile_with(vec![])
}

fn profile_with(sasl_password: Vec<CredToken>) -> KafkaProfileRuntime<(), ()> {
    let spec = KafkaBackendSpec::from_fields(KafkaBackendFields {
        request_topic: "requests".to_owned(),
        response_topic: "responses".to_owned(),
        timeout_ms: Some(7),
        max_response_bytes: Some(9),
        bootstrap_servers: None,
        sasl_username: None,
        sasl_password: None,
        security_protocol: None,
        sasl_mechanism: None,
    });
    let tokens = CredTokens {
        bootstrap_servers: vec![],
        sasl_username: vec![],
        sasl_password,
    };
    KafkaProfileRuntime::new(spec, tokens, "g", Arc::new(()), ())
}

fn started(start: CallStart<(), ()>) -> SubscribingCall<()> {
    match start {
        CallStart::Started(call) => call,
        _ => panic!("not started"),
    }
}

#[test]
fn call_goes_from_subscription_to_production_to_the_reply() {
    let profile = profile();
    let client = Arc::clone(&profile.static_bundle);
    let call = started(start_call_as(
        &profile,
        None,
        request(vec![], None),
        "corr-1".to_owned(),
    ));
    assert_eq!(call.response_topic(), "responses");
    assert!(Arc::ptr_eq(call.client(), &client));
    let call = call.subscribed(Ok(())).ok().expect("subscribed");
    let (record, call) = call.produce();
    assert_eq!(record.topic, "requests");
    assert_eq!(record.payload, b"{}");
    assert_eq!(record.headers.count(), 1);
    assert_eq!(record.headers.get(0).key, "correlation_id");
    assert_eq!(record.headers.get(0).value, Some(&b"corr-1"[..]));
    assert!(Arc::ptr_eq(call.client(), &client));
    assert_eq!(call.remaining_nanos(1).ok(), Some(6_999_999));
    assert!(matches!(
        call.remaining_nanos(7_000_000),
        Err(BackendError::Timeout { timeout_ms: 7 })
    ));
    let call = call.produced(SendOutcome::Sent).ok().expect("produced");
    assert!(Arc::ptr_eq(&call.client, &client));
    assert_eq!(call.pending.correlation_id, "corr-1");
    assert_eq!(call.pending.timeout_ms, 7);
    assert_eq!(call.pending.max_response_bytes, 9);
}

#[test]
fn client_of_a_binding_with_tokens_is_resolved_first() {
    let profile = profile_with(vec![CredToken {
        uri: "cred://a/b".to_owned(),
        key: None,
    }]);
    let start = |resolved| start_call(&profile, resolved, request(vec![], None));
    match start(None) {
        CallStart::Resolve(request) => assert_eq!(request.payload, b"{}"),
        _ => panic!("not resolved first"),
    }
    let failure = BackendError::InvalidSpec {
        message: "m".to_owned(),
    };
    match start(Some(Err(failure))) {
        CallStart::Failed(BackendError::InvalidSpec { message }) => assert_eq!(message, "m"),
        _ => panic!("failure lost"),
    }
    let client = Arc::new(());
    let call = started(start(Some(Ok(Arc::clone(&client)))));
    assert!(Arc::ptr_eq(call.client(), &client));
}

#[test]
fn client_of_a_binding_without_tokens_is_its_own() {
    let profile = profile();
    let other = Arc::new(());
    let call = started(start_call(&profile, Some(Ok(other)), request(vec![], None)));
    assert!(Arc::ptr_eq(call.client(), &profile.static_bundle));
}

#[test]
fn budget_of_a_call() {
    assert_eq!(remaining_budget(2, 1).ok(), Some(1_999_999));
    assert!(matches!(
        remaining_budget(2, 2_000_000),
        Err(BackendError::Timeout { timeout_ms: 2 })
    ));
}

#[test]
fn failed_steps_end_the_call() {
    let start = || {
        started(start_call_as(
            &profile(),
            None,
            request(vec![], None),
            "corr-1".to_owned(),
        ))
    };
    match start().subscribed(Err("denied".to_owned())).err() {
        Some(BackendError::Transport { message }) => {
            assert_eq!(message, "subscribe to 'responses' failed: denied");
        }
        _ => panic!("no transport error"),
    }
    let sending = || {
        let call = start().subscribed(Ok(())).ok().expect("subscribed");
        call.produce().1
    };
    let failed = SendOutcome::Failed {
        cause: "queue full".to_owned(),
    };
    match sending().produced(failed).err() {
        Some(BackendError::Transport { message }) => {
            assert_eq!(message, "produce to 'requests' failed: queue full");
        }
        _ => panic!("no transport error"),
    }
    assert!(matches!(
        sending().produced(SendOutcome::BudgetSpent),
        Err(BackendError::Timeout { timeout_ms: 7 })
    ));
}

#[test]
fn correlation_ids_are_fresh_random_uuids() {
    let id = || {
        let call = started(start_call(&profile(), None, request(vec![], None)));
        let (_, call) = call.subscribed(Ok(())).ok().expect("subscribed").produce();
        let call = call.produced(SendOutcome::Sent).ok().expect("produced");
        call.pending.correlation_id
    };
    let a = id();
    assert_ne!(a, id());
    let parsed = uuid::Uuid::parse_str(&a).expect("uuid");
    assert_eq!(parsed.get_version_num(), 4);
    assert_eq!(parsed.to_string(), a);
    assert_eq!(a.len(), 36);
}

#[test]
fn labels_of_outcomes() {
    let ok = call_labels(&Ok(BackendResponse {
        payload: vec![],
        truncated: false,
    }));
    assert_eq!(ok.outcome, "ok");
    assert_eq!(ok.error_kind, None);
    for (error, kind) in [
        (
            BackendError::ProfileNotFound {
                backend_name: "b".to_owned(),
            },
            "profile_not_found",
        ),
        (
            BackendError::Transport {
                message: "m".to_owned(),
            },
            "transport",
        ),
        (BackendError::Timeout { timeout_ms: 1 }, "timeout"),
        (
            BackendError::InvalidSpec {
                message: "m".to_owned(),
            },
            "invalid_spec",
        ),
    ] {
        let labels = call_labels(&Err(error));
        assert_eq!(labels.outcome, "error");
        assert_eq!(labels.error_kind, Some(kind));
    }
}

#[test]
fn transport_failures_name_their_step() {
    for (step, text) in [
        (TransportStep::SharedClient, "building shared Kafka client: x"),
        (TransportStep::BindingClient, "building per-binding Kafka client: x"),
        (TransportStep::CredentialClient, "building per-credential Kafka client: x"),
        (TransportStep::CredentialResolution, "credential resolution: x"),
        (TransportStep::Consume, "Kafka consume: x"),
    ] {
        match transport_error(&step, "x") {
            BackendError::Transport { message } => assert_eq!(message, text),
            other => panic!("{other:?}"),
        }
    }
}
