use mcpg_plugin_backend_kafka::client_registry::{
    digest_credential_bundle, ClientRegistry, ClientRegistryConfig,
};
use mcpg_plugin_backend_kafka::connection::{consumer_config, producer_config, ConnectionParams};
use mcpg_plugin_backend_kafka::credentials::{
    collect_cred_keys, collect_cred_uris, spec_has_cred_refs, CredToken, CredTokens,
};
use mcpg_plugin_backend_kafka::error::BackendError;
use mcpg_plugin_backend_kafka::message::BackendRequest;
use mcpg_plugin_backend_kafka::plugin::{ProfileDraft, ProfileStep};
use mcpg_plugin_backend_kafka::profile::{shared_params, KafkaProfileRuntime};
use mcpg_plugin_backend_kafka::resolution::{
    adopt_client, client_for_call, credential_query, find_client, BindingClients,
    CredentialClient, HostNotice, ResolvedFields,
};
use mcpg_plugin_backend_kafka::snapshot::{
    resolution_snapshot, resolved_values, rotation_applies, rotation_secret_refs, text_items,
    text_members, HostFailure,
};
use mcpg_plugin_backend_kafka::spec::{KafkaBackendFields, KafkaBackendSpec};
use mcpg_plugin_backend_kafka::KafkaBackendPlugin;
use rdkafka::consumer::BaseConsumer;
use rdkafka::producer::BaseProducer;
use serde_json::Value;
use std::collections::HashMap;
use std::sync::Arc;

/// A real client pair; creating one needs no broker.
struct Clients {
    _producer: BaseProducer,
    _consumer: BaseConsumer,
}

struct Identity {
    subject_id: String,
}

type Plugin = KafkaBackendPlugin<Clients, ()>;

fn build(params: &ConnectionParams) -> Result<Arc<Clients>, String> {
    let producer: BaseProducer = producer_config(params)
        .create()
        .map_err(|_| "failed to create Kafka producer".to_owned())?;
    let consumer: BaseConsumer = consumer_config(params)
        .create()
        .map_err(|_| "failed to create Kafka consumer".to_owned())?;
    Ok(Arc::new(Clients {
        _producer: producer,
        _consumer: consumer,
    }))
}

fn json(text: &str) -> Value {
    serde_json::from_str(text).expect("json")
}

fn spec_of(block: &str) -> KafkaBackendSpec {
    let block = json(block);
    let text = |key: &str| block.get(key).and_then(Value::as_str).map(str::to_owned);
    KafkaBackendSpec::from_fields(KafkaBackendFields {
        request_topic: text("request_topic").expect("request_topic"),
        response_topic: text("response_topic").expect("response_topic"),
        timeout_ms: None,
        max_response_bytes: None,
        bootstrap_servers: text("bootstrap_servers"),
        sasl_username: text("sasl_username"),
        sasl_password: text("sasl_password"),
        security_protocol: text("security_protocol"),
        sasl_mechanism: text("sasl_mechanism"),
    })
}

/// The issuer and the target of a reference.
fn key_of(uri: &str) -> Option<(String, String)> {
    let (issuer, target) = uri.strip_prefix("cred://")?.split_once('/')?;
    Some((issuer.to_owned(), target.to_owned()))
}

/// The tokens of a string in the gateway's grammar.
fn tokens_in(text: &Option<String>) -> Vec<CredToken> {
    let mut tokens = Vec::new();
    let mut rest = text.as_deref().unwrap_or("");
    while let Some(at) = rest.find("${cred://") {
        let inner = &rest[at + 2..];
        let Some(end) = inner.find('}') else { break };
        let uri = &inner[..end];
        tokens.push(CredToken {
            uri: uri.to_owned(),
            key: key_of(uri),
        });
        rest = &inner[end..];
    }
    tokens
}

fn tokens_of(spec: &KafkaBackendSpec) -> CredTokens {
    CredTokens {
        bootstrap_servers: tokens_in(&spec.bootstrap_servers),
        sasl_username: tokens_in(&spec.sasl_username),
        sasl_password: tokens_in(&spec.sasl_password),
    }
}

/// Puts the resolved values in the place of the tokens of a string.
fn substitute(text: &Option<String>, values: &[(String, String)]) -> Option<String> {
    let mut out = text.clone()?;
    for (uri, value) in values {
        out = out.replace(&format!("${{{uri}}}"), value);
    }
    Some(out)
}

/// A host that resolves references per caller and records what it was asked.
struct StubHost {
    creds: HashMap<String, HashMap<(String, String), String>>,
    seen_snapshots: Vec<Value>,
    resolved_snapshots: Vec<Value>,
    requested_keys: Vec<(String, String)>,
}

impl StubHost {
    fn new(subject: &str, creds: &[(&str, &str, &str)]) -> Self {
        let map = creds
            .iter()
            .map(|(p, t, s)| (((*p).to_owned(), (*t).to_owned()), (*s).to_owned()))
            .collect();
        StubHost {
            creds: HashMap::from([(subject.to_owned(), map)]),
            seen_snapshots: Vec::new(),
            resolved_snapshots: Vec::new(),
            requested_keys: Vec::new(),
        }
    }

    fn resolve(&mut self, identity: &Option<Arc<Identity>>, snapshot: &mut Value) {
        self.seen_snapshots.push(snapshot.clone());
        let subject = identity.as_ref().map_or(String::new(), |i| i.subject_id.clone());
        let known = self.creds.get(&subject).cloned().unwrap_or_default();
        for value in snapshot.as_object_mut().expect("object").values_mut() {
            let key = value.as_str().and_then(key_of);
            if let Some(key) = key {
                self.requested_keys.push(key.clone());
                if let Some(secret) = known.get(&key) {
                    *value = Value::String(secret.clone());
                }
            }
        }
        self.resolved_snapshots.push(snapshot.clone());
    }
}

fn register(plugin: &mut Plugin, name: &str, block: &str) -> Arc<KafkaProfileRuntime<Clients, ()>> {
    let spec = spec_of(block);
    let tokens = tokens_of(&spec);
    let mut draft = ProfileDraft {
        backend_name: name.to_owned(),
        spec,
        tokens,
    };
    let mut built = None;
    loop {
        match plugin.prepare_profile(draft, built.take()) {
            ProfileStep::Ready(prepared) => {
                assert!(plugin.register_profile(prepared, ()).is_ok());
                return plugin.profile(name).ok().expect("profile registered");
            }
            ProfileStep::Build { params, draft: same, .. } => {
                built = Some(build(&params));
                draft = same;
            }
            ProfileStep::Failed(error) => panic!("{error:?}"),
        }
    }
}

/// Resolves the client of a call the way the plugin's owner does.
fn resolve(
    profile: &KafkaProfileRuntime<Clients, ()>,
    registry: &mut ClientRegistry<Clients>,
    host: &mut StubHost,
    request: &BackendRequest<Identity>,
    name: &str,
    now: u64,
) -> Result<Arc<Clients>, BackendError> {
    let values = match credential_query(&profile.tokens, request, name) {
        Some(query) => {
            assert_eq!(query.request_id, request.request_id);
            assert_eq!(query.session_id, request.session_id);
            assert_eq!(query.backend_name, name);
            let mut snapshot = query.snapshot;
            host.resolve(&query.identity, &mut snapshot);
            resolved_values(Ok(&snapshot))?
        }
        None => Vec::new(),
    };
    let resolved = ResolvedFields {
        bootstrap_servers: substitute(&profile.cfg.bootstrap_servers, &values),
        sasl_username: substitute(&profile.cfg.sasl_username, &values),
        sasl_password: substitute(&profile.cfg.sasl_password, &values),
    };
    let client = client_for_call(&profile.cfg, &profile.tokens, &profile.group_id, resolved)?;
    if let Some(found) = find_client(registry, &client, now) {
        return Ok(found);
    }
    let built = build(&client.params);
    Ok(adopt_client(registry, client, built, now)?.0)
}

fn request(subject: &str, payload: Vec<u8>, headers: Vec<(String, String)>) -> BackendRequest<Identity> {
    BackendRequest {
        payload,
        headers,
        request_id: format!("req-{subject}"),
        session_id: None,
        identity: Some(Arc::new(Identity {
            subject_id: subject.to_owned(),
        })),
        idempotency: None,
    }
}

fn shared_plugin(group_id: &str) -> Plugin {
    let built = build(&shared_params("127.0.0.1:9092", group_id));
    KafkaBackendPlugin::new("127.0.0.1:9092", group_id, built)
        .ok()
        .expect("construct plugin")
}

fn cache<T>() -> ClientRegistry<T> {
    ClientRegistry::new(ClientRegistryConfig::default())
}

const DYNAMIC_SPEC: &str = r#"{
    "request_topic": "requests",
    "response_topic": "responses",
    "bootstrap_servers": "127.0.0.1:9092",
    "sasl_username": "svc-user",
    "sasl_password": "${cred://static-broker/sasl-pw}",
    "security_protocol": "SASL_PLAINTEXT",
    "sasl_mechanism": "PLAIN"
}"#;

#[test]
fn request_injected_cred_uri_never_reaches_resolution_snapshot() {
    let operator_sasl_secret = "REAL_SASL_SECRET";
    let attacker_db_secret = "SUPER_SECRET_DB_PW";
    let injected_cred = "cred://attacker/db-password";
    let injected_env = "${env.MCPG_KAFKA_SECTEST_LEAK}";

    let mut host = StubHost::new(
        "mallory",
        &[
            ("static-broker", "sasl-pw", operator_sasl_secret),
            ("attacker", "db-password", attacker_db_secret),
        ],
    );
    let mut plugin = shared_plugin("mcpg-sectest");
    let profile = register(&mut plugin, "sec", DYNAMIC_SPEC);
    assert!(
        profile.has_cred_refs,
        "operator ${{cred://…}} token in sasl_password must set has_cred_refs"
    );
    assert!(profile.static_client().is_none());

    let payload = format!(r#"{{"evil_cred":"{injected_cred}","evil_env":"{injected_env}"}}"#);
    let request = request(
        "mallory",
        payload.into_bytes(),
        vec![
            ("x-evil-cred".to_owned(), injected_cred.to_owned()),
            ("x-evil-env".to_owned(), injected_env.to_owned()),
        ],
    );
    resolve(&profile, &mut cache(), &mut host, &request, "sec", 0)
        .ok()
        .expect("resolution should succeed (operator ${cred://…} resolves)");

    let snapshots = &host.seen_snapshots;
    let requested = &host.requested_keys;
    assert_eq!(
        snapshots.len(),
        1,
        "resolve_credentials called exactly once"
    );
    let snapshot = &snapshots[0];
    let snap_str = serde_json::to_string(snapshot).unwrap();
    let snap_pw = snapshot
        .get("cred://static-broker/sasl-pw")
        .and_then(Value::as_str)
        .unwrap_or_default();
    assert_eq!(
        snap_pw, "cred://static-broker/sasl-pw",
        "operator-config ${{cred://…}} token must be presented to the resolver; snapshot: {snap_str}"
    );
    assert!(
        requested.contains(&("static-broker".to_owned(), "sasl-pw".to_owned())),
        "operator ${{cred://…}} token must be resolved; requested keys: {requested:?}"
    );
    assert!(
        !snap_str.contains(injected_cred),
        "SECURITY: request-injected cred:// leaked into the resolution snapshot: {snap_str}"
    );
    assert!(
        !snap_str.contains(attacker_db_secret),
        "SECURITY: attacker secret resolved into the snapshot/connection: {snap_str}"
    );
    assert!(
        !snap_str.contains(injected_env) && !snap_str.contains("MCPG_KAFKA_SECTEST_LEAK"),
        "SECURITY: request-injected ${{$env.X}} leaked into the resolution snapshot: {snap_str}"
    );
    assert!(
        !requested.contains(&("attacker".to_owned(), "db-password".to_owned())),
        "SECURITY: resolver was asked to resolve the request-injected cred:// — \
         caller-controlled data reached the snapshot; requested keys: {requested:?}"
    );
    assert_eq!(snapshot.as_object().expect("object").len(), 1);
}

#[test]
fn wrapped_cred_token_resolves_at_request_time() {
    let secret = "RESOLVED_SASL_SECRET";
    let mut host = StubHost::new("alice", &[("static-broker", "sasl-pw", secret)]);
    let mut plugin = shared_plugin("mcpg-grammar");
    let profile = register(&mut plugin, "g", DYNAMIC_SPEC);
    assert!(
        profile.has_cred_refs,
        "${{cred://…}} token must flip the dynamic-cred path on"
    );

    let mut registry = cache();
    let request = request("alice", Vec::new(), Vec::new());
    let first = resolve(&profile, &mut registry, &mut host, &request, "g", 1)
        .ok()
        .expect("resolution should succeed");

    assert_eq!(host.seen_snapshots.len(), 1, "resolver called exactly once");
    let presented = host.seen_snapshots[0]
        .get("cred://static-broker/sasl-pw")
        .and_then(Value::as_str);
    assert_eq!(
        presented,
        Some("cred://static-broker/sasl-pw"),
        "${{cred://…}} token's inner URI must be presented to the resolver; snapshot: {:?}",
        host.seen_snapshots[0]
    );
    let landed = host.resolved_snapshots[0]
        .get("cred://static-broker/sasl-pw")
        .and_then(Value::as_str);
    assert_eq!(
        landed,
        Some(secret),
        "${{cred://…}} token must resolve to the issuer's secret; resolved snapshot: {:?}",
        host.resolved_snapshots[0]
    );
    assert!(
        host.requested_keys
            .contains(&("static-broker".to_owned(), "sasl-pw".to_owned())),
        "resolver must be asked for the token's (issuer, target); requested: {:?}",
        host.requested_keys
    );

    let again = resolve(&profile, &mut registry, &mut host, &request, "g", 2)
        .ok()
        .expect("second call");
    assert!(Arc::ptr_eq(&first, &again));
    assert_eq!(registry.len(), 1);
    assert_eq!(registry.evict_for("static-broker", "sasl-pw"), 1);
}

#[test]
fn bare_cred_uri_in_config_is_left_verbatim() {
    let bare_spec = spec_of(
        r#"{
            "request_topic": "r",
            "response_topic": "s",
            "bootstrap_servers": "127.0.0.1:9092",
            "sasl_password": "cred://static-broker/sasl-pw"
        }"#,
    );
    assert!(
        !spec_has_cred_refs(&tokens_of(&bare_spec)),
        "a BARE cred:// must NOT be treated as a credential reference"
    );

    let mut host = StubHost::new(
        "bob",
        &[("static-broker", "sasl-pw", "SECRET_THAT_MUST_NOT_BE_FETCHED")],
    );
    let mut plugin = shared_plugin("mcpg-bare");
    let profile = register(
        &mut plugin,
        "bare",
        r#"{
            "request_topic": "requests",
            "response_topic": "responses",
            "bootstrap_servers": "127.0.0.1:9092",
            "sasl_username": "svc-user",
            "sasl_password": "cred://static-broker/sasl-pw",
            "security_protocol": "SASL_PLAINTEXT",
            "sasl_mechanism": "PLAIN"
        }"#,
    );
    assert!(
        !profile.has_cred_refs,
        "a BARE cred:// must take the static path (has_cred_refs = false)"
    );
    assert!(profile.static_client().is_some());
    let request = request("bob", Vec::new(), Vec::new());
    assert!(credential_query(&profile.tokens, &request, "bare").is_none());
    // Even the path of dynamic profiles asks the host for nothing.
    resolve(&profile, &mut cache(), &mut host, &request, "bare", 0)
        .ok()
        .expect("client of literal values");
    assert!(
        host.seen_snapshots.is_empty(),
        "resolve_credentials must NOT be called for a bare cred:// profile"
    );
    assert!(
        host.requested_keys.is_empty(),
        "resolver must NOT be asked to resolve a bare cred://"
    );
}

fn token(uri: &str) -> CredToken {
    CredToken {
        uri: uri.to_owned(),
        key: key_of(uri),
    }
}

fn some_tokens() -> CredTokens {
    CredTokens {
        bootstrap_servers: vec![token("cred://b/hosts")],
        sasl_username: vec![token("cred://a/user"), token("cred://a/tenant")],
        sasl_password: vec![token("cred://a/user"), token("cred://noslash")],
    }
}

#[test]
fn query_names_the_call_and_the_caller() {
    let mut request = request("carol", Vec::new(), Vec::new());
    request.session_id = Some("s1".to_owned());
    let query = credential_query(&some_tokens(), &request, "b")
        .expect("tokens to resolve");
    assert_eq!(query.request_id, "req-carol");
    assert_eq!(query.session_id.as_deref(), Some("s1"));
    assert_eq!(query.backend_name, "b");
    assert_eq!(query.identity.expect("identity").subject_id, "carol");
}

#[test]
fn caller_data_has_no_part_in_the_query_or_the_client() {
    let secret = [("static-broker", "sasl-pw", "SECRET")];
    let mut host = StubHost::new("alice", &secret);
    let mut plugin = shared_plugin("mcpg-origin");
    let profile = register(&mut plugin, "g", DYNAMIC_SPEC);
    let mut registry = cache();
    let plain = request("alice", Vec::new(), Vec::new());
    let loaded = request(
        "alice",
        b"cred://static-broker/other".to_vec(),
        vec![("x".to_owned(), "${cred://static-broker/other}".to_owned())],
    );
    let a = resolve(&profile, &mut registry, &mut host, &plain, "g", 1).ok().expect("client");
    let b = resolve(&profile, &mut registry, &mut host, &loaded, "g", 2).ok().expect("client");
    assert!(Arc::ptr_eq(&a, &b));
    assert_eq!(registry.len(), 1);
    assert_eq!(host.seen_snapshots[0], host.seen_snapshots[1]);
}

#[test]
fn callers_with_different_secrets_do_not_share_a_client() {
    let mut plugin = shared_plugin("mcpg-callers");
    let profile = register(&mut plugin, "g", DYNAMIC_SPEC);
    let mut registry = cache();
    let mut client_of = |subject: &str, secret: &str| {
        let mut host = StubHost::new(subject, &[("static-broker", "sasl-pw", secret)]);
        let request = request(subject, Vec::new(), Vec::new());
        resolve(&profile, &mut registry, &mut host, &request, "g", 1).ok().expect("client")
    };
    let alice = client_of("alice", "A");
    let bob = client_of("bob", "B");
    assert!(!Arc::ptr_eq(&alice, &bob));
    assert!(Arc::ptr_eq(&alice, &client_of("carol", "A")));
}

#[test]
fn references_and_keys_come_once_and_in_order() {
    let tokens = some_tokens();
    assert_eq!(
        collect_cred_uris(&tokens),
        vec!["cred://a/tenant", "cred://a/user", "cred://b/hosts", "cred://noslash"]
    );
    let keys = collect_cred_keys(&tokens);
    let keys: Vec<(&str, &str)> = keys.iter().map(|(a, b)| (a.as_str(), b.as_str())).collect();
    assert_eq!(keys, vec![("a", "tenant"), ("a", "user"), ("b", "hosts")]);
}

#[test]
fn snapshot_holds_each_reference_as_itself() {
    let snapshot = resolution_snapshot(&vec!["cred://a/b".to_owned(), "cred://c/d".to_owned()]);
    assert_eq!(
        snapshot,
        json(r#"{ "cred://a/b": "cred://a/b", "cred://c/d": "cred://c/d" }"#)
    );
    assert_eq!(resolution_snapshot(&vec![]), json("{}"));
}

#[test]
fn only_text_is_read_from_the_reply() {
    let reply = json(r#"{ "a": "x", "b": 1, "c": null, "d": "", "e": ["y"] }"#);
    let mut values = resolved_values(Ok(&reply)).expect("object");
    values.sort();
    assert_eq!(
        values,
        vec![
            ("a".to_owned(), "x".to_owned()),
            ("d".to_owned(), String::new()),
        ]
    );
    assert_eq!(
        text_members(vec![
            ("k".to_owned(), None),
            ("l".to_owned(), Some("v".to_owned())),
        ]),
        vec![("l".to_owned(), "v".to_owned())]
    );
}

#[test]
fn reply_that_is_no_object_is_a_transport_failure() {
    for reply in [json("[]"), json("\"x\""), json("null")] {
        match resolved_values(Ok(&reply)) {
            Err(BackendError::Transport { message }) => assert_eq!(
                message,
                "credential resolver mutated snapshot to non-object"
            ),
            _ => panic!("accepted"),
        }
    }
}

#[test]
fn failures_of_the_host() {
    let cause = BackendError::Timeout { timeout_ms: 5 };
    match resolved_values(Err(HostFailure::Backend { cause })) {
        Err(BackendError::Timeout { timeout_ms }) => assert_eq!(timeout_ms, 5),
        _ => panic!("cause lost"),
    }
    let failure = HostFailure::Other {
        detail: "not implemented".to_owned(),
    };
    match resolved_values(Err(failure)) {
        Err(BackendError::Transport { message }) => {
            assert_eq!(message, "credential resolution: not implemented");
        }
        _ => panic!("no transport error"),
    }
}

fn resolved(brokers: Option<&str>, username: Option<&str>, password: Option<&str>) -> ResolvedFields {
    ResolvedFields {
        bootstrap_servers: brokers.map(str::to_owned),
        sasl_username: username.map(str::to_owned),
        sasl_password: password.map(str::to_owned),
    }
}

fn client(fields: ResolvedFields) -> Result<CredentialClient, BackendError> {
    let spec = spec_of(
        r#"{
            "request_topic": "r",
            "response_topic": "s",
            "sasl_password": "${cred://a/user}",
            "sasl_mechanism": "PLAIN"
        }"#,
    );
    client_for_call(&spec, &some_tokens(), "grp", fields)
}

#[test]
fn client_of_a_call_follows_the_resolved_parameters() {
    let c = client(resolved(Some("b:1"), Some("u"), Some("p"))).ok().expect("client");
    assert_eq!(
        c.digest,
        digest_credential_bundle(&[
            ("bootstrap_servers".to_owned(), "b:1".to_owned()),
            ("sasl_password".to_owned(), "p".to_owned()),
            ("sasl_username".to_owned(), "u".to_owned()),
        ])
    );
    assert_eq!(c.params.bootstrap_servers, "b:1");
    assert_eq!(c.params.group_id, "grp");
    assert_eq!(c.params.sasl_username.as_deref(), Some("u"));
    assert_eq!(c.params.sasl_password.as_deref(), Some("p"));
    assert_eq!(c.params.security_protocol, None);
    assert_eq!(c.params.sasl_mechanism.as_deref(), Some("PLAIN"));
    assert_eq!(c.cred_keys, collect_cred_keys(&some_tokens()));
}

#[test]
fn different_credentials_lead_to_different_clients() {
    let digest = |b, u, p| client(resolved(Some(b), u, p)).ok().expect("client").digest;
    let all = [
        digest("b", Some("u"), Some("p")),
        digest("c", Some("u"), Some("p")),
        digest("b", Some("v"), Some("p")),
        digest("b", Some("u"), Some("q")),
        digest("b", None, Some("p")),
        digest("b", Some("u"), None),
        digest("b", None, None),
        digest("b", Some(""), None),
    ];
    for i in 0..all.len() {
        for j in 0..i {
            assert_ne!(all[i], all[j], "{i} {j}");
        }
    }
}

#[test]
fn call_without_brokers_is_an_invalid_spec() {
    match client(resolved(None, None, Some("p"))) {
        Err(BackendError::InvalidSpec { message }) => assert_eq!(
            message,
            "Kafka binding with ${cred://…} in SASL fields also requires `bootstrap_servers` \
             on the spec — the per-credential path needs an explicit broker list"
        ),
        _ => panic!("accepted"),
    }
}

#[test]
fn failed_build_leaves_the_cache_alone() {
    let mut registry: ClientRegistry<u32> = cache();
    let c = client(resolved(Some("b"), None, None)).ok().expect("client");
    assert!(find_client(&mut registry, &c, 0).is_none());
    match adopt_client(&mut registry, c, Err("no client".to_owned()), 1) {
        Err(BackendError::Transport { message }) => {
            assert_eq!(message, "building per-credential Kafka client: no client");
        }
        _ => panic!("no transport error"),
    }
    assert!(registry.is_empty());
}

#[test]
fn client_cached_in_the_meantime_is_shared() {
    let mut registry: ClientRegistry<u32> = cache();
    let c = || client(resolved(Some("b"), None, None)).ok().expect("client");
    let adopt = |registry: &mut ClientRegistry<u32>, n: u32, now| {
        let (bundle, evicted) = adopt_client(registry, c(), Ok(Arc::new(n)), now).ok().expect("client");
        (*bundle, evicted)
    };
    assert_eq!(adopt(&mut registry, 1, 1), (1, 0));
    assert_eq!(adopt(&mut registry, 2, 2), (1, 0));
    assert_eq!(find_client(&mut registry, &c(), 3).as_deref(), Some(&1));
}

#[test]
fn revoking_any_token_drops_the_client() {
    for (plugin_id, target) in [("a", "tenant"), ("a", "user"), ("b", "hosts")] {
        let mut registry: ClientRegistry<u32> = cache();
        let c = client(resolved(Some("b"), None, None)).ok().expect("client");
        adopt_client(&mut registry, c, Ok(Arc::new(1)), 1).ok().expect("client");
        assert_eq!(registry.evict_for("a", "other"), 0);
        assert_eq!(registry.evict_for(plugin_id, target), 1);
        assert!(registry.is_empty());
    }
}

#[test]
fn rotation_hint_lists_the_secrets_of_a_binding() {
    let spec = json(
        r#"{ "request_topic": "r", "__mcpg_secret_refs": ["vault://a", 1, "vault://b", null] }"#,
    );
    let refs = rotation_secret_refs(&spec);
    assert_eq!(refs, vec!["vault://a", "vault://b"]);
    assert!(rotation_applies(&refs, "vault://b"));
    assert!(!rotation_applies(&refs, "vault://c"));
    for none in ["{}", r#"{ "__mcpg_secret_refs": "vault://a" }"#, "[]"] {
        assert!(rotation_secret_refs(&json(none)).is_empty());
    }
    assert_eq!(
        text_items(vec![Some("x".to_owned()), None, Some("y".to_owned())]),
        vec!["x", "y"]
    );
}

#[test]
fn notices_of_the_host_drop_the_clients_they_concern() {
    let spec = json(r#"{ "request_topic": "r", "__mcpg_secret_refs": ["vault://a", 7] }"#);
    let mut clients: BindingClients<u32> =
        BindingClients::new(&spec, ClientRegistryConfig::default());
    assert_eq!(clients.secret_refs, vec!["vault://a"]);
    let adopt = |clients: &mut BindingClients<u32>| {
        let c = client(resolved(Some("b"), None, None)).ok().expect("client");
        adopt_client(&mut clients.registry, c, Ok(Arc::new(1)), 1)
            .ok()
            .expect("client");
    };
    let rotated = |secret: &str| HostNotice::SecretRotated {
        secret_ref: secret.to_owned(),
    };
    let revoked = |target: &str| HostNotice::CredentialRevoked {
        plugin_id: "a".to_owned(),
        target: target.to_owned(),
    };
    adopt(&mut clients);
    assert_eq!(clients.on_notice(&rotated("vault://b")), 0);
    assert_eq!(clients.on_notice(&revoked("other")), 0);
    assert_eq!(clients.registry.len(), 1);
    assert_eq!(clients.on_notice(&rotated("vault://a")), 1);
    assert!(clients.registry.is_empty());
    adopt(&mut clients);
    assert_eq!(clients.on_notice(&revoked("user")), 1);
    assert!(clients.registry.is_empty());
}
