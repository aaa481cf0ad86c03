use mcpg_plugin_backend_kafka::connection::{consumer_config, producer_config, ConnectionParams};
use mcpg_plugin_backend_kafka::credentials::{CredToken, CredTokens};
use mcpg_plugin_backend_kafka::error::BackendError;
use mcpg_plugin_backend_kafka::plugin::{ClientStep, ProfileDraft, ProfileStep};
use mcpg_plugin_backend_kafka::profile::{dedicated_params, shared_params};
use mcpg_plugin_backend_kafka::spec::{
    binding_spec, default_kafka_group_id, default_max_response_bytes, default_timeout_ms,
    validate_spec, KafkaBackendFields, KafkaBackendSpec, KafkaPluginConfig,
};
use mcpg_plugin_backend_kafka::KafkaBackendPlugin;
use rdkafka::consumer::BaseConsumer;
use rdkafka::producer::BaseProducer;
use serde_json::Value;
use std::sync::Arc;

/// A real client pair; creating one needs no broker.
struct Clients {
    _producer: BaseProducer,
    _consumer: BaseConsumer,
}

type Plugin = KafkaBackendPlugin<Clients, ()>;

fn build(params: &ConnectionParams) -> Result<Arc<Clients>, String> {
    let producer: BaseProducer = producer_config(params)
        .create()
        .map_err(|_| "failed to create Kafka producer".to_owned())?;
    let consumer: BaseConsumer = consumer_config(params)
        .create()
        .map_err(|_| "failed to create Kafka consumer".to_owned())?;
    Ok(Arc::new(Clients {
        _producer: producer,
        _consumer: consumer,
    }))
}

fn plugin(brokers: &str, group_id: &str) -> Plugin {
    KafkaBackendPlugin::new(brokers, group_id, build(&shared_params(brokers, group_id)))
        .ok()
        .expect("construct plugin")
}

fn json(text: &str) -> Value {
    serde_json::from_str(text).expect("json")
}

/// Reads a binding block the way the gateway hands it over.
fn fields(block: &Value) -> Result<KafkaBackendFields, String> {
    let text = |key: &str| block.get(key).and_then(Value::as_str).map(str::to_owned);
    let required = |key: &str| text(key).ok_or(format!("missing field `{key}`"));
    Ok(KafkaBackendFields {
        request_topic: required("request_topic")?,
        response_topic: required("response_topic")?,
        timeout_ms: block.get("timeout_ms").and_then(Value::as_u64),
        max_response_bytes: block
            .get("max_response_bytes")
            .and_then(Value::as_u64)
            .map(|n| usize::try_from(n).expect("usize")),
        bootstrap_servers: text("bootstrap_servers"),
        sasl_username: text("sasl_username"),
        sasl_password: text("sasl_password"),
        security_protocol: text("security_protocol"),
        sasl_mechanism: text("sasl_mechanism"),
    })
}

fn spec_of(block: &str) -> KafkaBackendSpec {
    binding_spec(fields(&json(block))).expect("spec")
}

/// The tokens of a string in the gateway's grammar.
fn tokens_in(text: &Option<String>) -> Vec<CredToken> {
    let mut tokens = Vec::new();
    let mut rest = text.as_deref().unwrap_or("");
    while let Some(at) = rest.find("${cred://") {
        let inner = &rest[at + 2..];
        let Some(end) = inner.find('}') else { break };
        let uri = &inner[..end];
        let key = uri["cred://".len()..]
            .split_once('/')
            .map(|(issuer, target)| (issuer.to_owned(), target.to_owned()));
        tokens.push(CredToken {
            uri: uri.to_owned(),
            key,
        });
        rest = &inner[end..];
    }
    tokens
}

fn tokens_of(spec: &KafkaBackendSpec) -> CredTokens {
    CredTokens {
        bootstrap_servers: tokens_in(&spec.bootstrap_servers),
        sasl_username: tokens_in(&spec.sasl_username),
        sasl_password: tokens_in(&spec.sasl_password),
    }
}

fn draft_of(name: &str, block: &str) -> ProfileDraft {
    let spec = spec_of(block);
    let tokens = tokens_of(&spec);
    ProfileDraft {
        backend_name: name.to_owned(),
        spec,
        tokens,
    }
}

/// Registers a binding, building whatever client it asks for. Also says how many clients
/// were built.
fn register(plugin: &mut Plugin, name: &str, block: &str) -> Result<usize, BackendError> {
    let mut draft = draft_of(name, block);
    let mut built = None;
    let mut count = 0;
    loop {
        match plugin.prepare_profile(draft, built.take()) {
            ProfileStep::Ready(prepared) => {
                assert_eq!(prepared.draft().backend_name, name);
                assert!(plugin.register_profile(prepared, ()).is_ok());
                return Ok(count);
            }
            ProfileStep::Build { params, draft: same, .. } => {
                built = Some(build(&params));
                count += 1;
                draft = same;
            }
            ProfileStep::Failed(error) => return Err(error),
        }
    }
}

fn invalid(result: Result<usize, BackendError>) -> String {
    match result {
        Err(BackendError::InvalidSpec { message }) => message,
        Err(other) => panic!("other error: {other:?}"),
        Ok(_) => panic!("accepted"),
    }
}

#[test]
fn empty_config_yields_defaults() {
    let configs = [
        KafkaPluginConfig::default(),
        KafkaPluginConfig::from_fields(None, None),
    ];
    for config in configs {
        let plugin = Plugin::from_config(config);
        assert_eq!(plugin.shared_bootstrap_servers(), "");
        assert_eq!(plugin.group_id(), "mcpg");
    }
    assert_eq!(default_kafka_group_id(), "mcpg");
}

#[test]
fn valid_config_parses() {
    let block = json(r#"{"bootstrap_servers":"broker:9092","group_id":"g"}"#);
    let text = |key: &str| block.get(key).and_then(Value::as_str).map(str::to_owned);
    let config = KafkaPluginConfig::from_fields(text("bootstrap_servers"), text("group_id"));
    let plugin = Plugin::from_config(config);
    assert_eq!(plugin.shared_bootstrap_servers(), "broker:9092");
    assert_eq!(plugin.group_id(), "g");
}

#[test]
fn binding_spec_deserializes() {
    let spec = spec_of(
        r#"{
            "request_topic": "requests",
            "response_topic": "responses",
            "timeout_ms": 5000,
            "max_response_bytes": 2048
        }"#,
    );
    assert_eq!(spec.request_topic, "requests");
    assert_eq!(spec.response_topic, "responses");
    assert_eq!(spec.timeout_ms, 5000);
    assert_eq!(spec.max_response_bytes, 2048);
}

#[test]
fn binding_spec_uses_defaults() {
    let spec = spec_of(r#"{ "request_topic": "r", "response_topic": "s" }"#);
    assert_eq!(spec.timeout_ms, 10_000);
    assert_eq!(spec.max_response_bytes, 65_536);
    assert_eq!(default_timeout_ms(), 10_000);
    assert_eq!(default_max_response_bytes(), 65_536);
}

#[test]
fn unreadable_binding_block_is_an_invalid_spec() {
    let error = binding_spec(fields(&json(r#"{ "request_topic": "r" }"#))).expect_err("no topic");
    match error {
        BackendError::InvalidSpec { message } => assert_eq!(
            message,
            "Kafka binding spec: missing field `response_topic`"
        ),
        other => panic!("{other:?}"),
    }
}

#[test]
fn binding_plugin_kind_is_kafka() {
    let plugin = plugin("127.0.0.1:9092", "mcpg-test");
    assert_eq!(plugin.kind(), "kafka");
}

#[test]
fn plugin_whose_client_cannot_be_built_is_not_there() {
    let plugin: Result<Plugin, String> =
        KafkaBackendPlugin::new("b:9092", "g", Err("no client".to_owned()));
    assert_eq!(plugin.err().expect("failure"), "no client");
}

#[test]
fn register_profile_rejects_empty_topics() {
    let mut plugin = plugin("127.0.0.1:9092", "mcpg-test");
    let result = register(
        &mut plugin,
        "bad",
        r#"{ "request_topic": "", "response_topic": "r" }"#,
    );
    assert_eq!(
        invalid(result),
        "request_topic and response_topic must not be empty"
    );
}

#[test]
fn register_profile_rejects_blank_topics() {
    let mut plugin = plugin("127.0.0.1:9092", "mcpg-test");
    let result = register(
        &mut plugin,
        "bad",
        r#"{ "request_topic": "a", "response_topic": " \t " }"#,
    );
    assert_eq!(
        invalid(result),
        "request_topic and response_topic must not be empty"
    );
}

#[test]
fn register_profile_rejects_zero_timeout() {
    let mut plugin = plugin("127.0.0.1:9092", "mcpg-test");
    let result = register(
        &mut plugin,
        "bad",
        r#"{ "request_topic": "a", "response_topic": "b", "timeout_ms": 0 }"#,
    );
    assert_eq!(invalid(result), "timeout_ms must be greater than 0");
}

#[test]
fn register_profile_rejects_zero_cap() {
    let mut plugin = plugin("127.0.0.1:9092", "mcpg-test");
    let result = register(
        &mut plugin,
        "bad",
        r#"{ "request_topic": "a", "response_topic": "b", "max_response_bytes": 0 }"#,
    );
    assert_eq!(invalid(result), "max_response_bytes must be greater than 0");
}

#[test]
fn register_profile_applies_gateway_defaults() {
    let mut plugin = plugin("127.0.0.1:9092", "mcpg-test");
    register(
        &mut plugin,
        "defaults",
        r#"{ "request_topic": "requests", "response_topic": "responses" }"#,
    )
    .expect("registers with defaults");
    let profile = plugin.profile("defaults").ok().expect("profile stored");
    assert_eq!(profile.timeout_ms, 10_000);
    assert_eq!(profile.max_response_bytes, 65_536);
}

#[test]
fn register_profile_rejects_invalid_topic_value() {
    let mut plugin = plugin("127.0.0.1:9092", "mcpg-test");
    let long = format!(
        r#"{{ "request_topic": "{}", "response_topic": "ok" }}"#,
        "a".repeat(250)
    );
    for bad in [r#"{ "request_topic": "ok", "response_topic": "x\u0000y" }"#, &long] {
        let message = invalid(register(&mut plugin, "bad", bad));
        assert!(message.starts_with("Kafka topic '"));
        assert!(message.ends_with("' is invalid"));
    }
}

#[test]
fn topic_length_is_counted_in_characters() {
    let mut plugin = plugin("127.0.0.1:9092", "mcpg-test");
    for (unit, count, accepted) in [("a", 249, true), ("é", 249, true), ("é", 250, false)] {
        let block = format!(
            r#"{{ "request_topic": "{}", "response_topic": "ok" }}"#,
            unit.repeat(count)
        );
        assert_eq!(register(&mut plugin, "long", &block).is_ok(), accepted);
    }
}

#[test]
fn connection_vs_per_binding_split_resolves() {
    let config = KafkaPluginConfig::from_fields(
        Some("broker:9092".to_owned()),
        Some("shared-grp".to_owned()),
    );
    let mut plugin = Plugin::from_config(config);
    assert_eq!(plugin.shared_bootstrap_servers(), "broker:9092");
    assert_eq!(plugin.group_id(), "shared-grp");
    let built = register(
        &mut plugin,
        "split",
        r#"{ "request_topic": "requests", "response_topic": "responses" }"#,
    )
    .expect("registers using config-sourced connection + spec-sourced topics");
    assert_eq!(built, 1);
    let profile = plugin.profile("split").ok().expect("profile stored");
    assert_eq!(profile.request_topic, "requests");
    assert_eq!(profile.response_topic, "responses");
    assert_eq!(profile.group_id, "shared-grp");
}

#[test]
fn shared_client_is_built_once() {
    let mut plugin = Plugin::from_config(KafkaPluginConfig::from_fields(
        Some("broker:9092".to_owned()),
        None,
    ));
    let block = r#"{ "request_topic": "r", "response_topic": "s" }"#;
    assert_eq!(register(&mut plugin, "one", block).expect("one"), 1);
    assert_eq!(register(&mut plugin, "two", block).expect("two"), 0);
    let one = plugin.profile("one").ok().expect("one");
    let two = plugin.profile("two").ok().expect("two");
    assert!(Arc::ptr_eq(&one.static_bundle, &two.static_bundle));
    assert!(one.static_client().is_some());
}

#[test]
fn failure_to_build_the_shared_client_is_not_remembered() {
    let mut plugin = Plugin::from_config(KafkaPluginConfig::from_fields(
        Some("broker:9092".to_owned()),
        None,
    ));
    let draft = || draft_of("b", r#"{ "request_topic": "r", "response_topic": "s" }"#);
    match plugin.prepare_profile(draft(), Some(Err("no client".to_owned()))) {
        ProfileStep::Failed(BackendError::Transport { message }) => {
            assert_eq!(message, "building shared Kafka client: no client");
        }
        _ => panic!("no transport error"),
    }
    match plugin.prepare_profile(draft(), None) {
        ProfileStep::Build { params, shared, draft } => {
            assert!(shared);
            assert_eq!(draft.backend_name, "b");
            assert_eq!(params.bootstrap_servers, "broker:9092");
            assert_eq!(params.group_id, "mcpg");
            assert!(params.sasl_username.is_none());
        }
        _ => panic!("no second attempt"),
    }
    assert!(plugin.profile("b").is_err());
}

#[test]
fn failure_to_build_a_client_of_ones_own() {
    let mut plugin = plugin("broker:9092", "grp");
    let draft = || {
        draft_of(
            "b",
            r#"{ "request_topic": "r", "response_topic": "s", "sasl_mechanism": "PLAIN" }"#,
        )
    };
    match plugin.prepare_profile(draft(), None) {
        ProfileStep::Build { shared, .. } => assert!(!shared),
        _ => panic!("no client of its own"),
    }
    match plugin.prepare_profile(draft(), Some(Err("no client".to_owned()))) {
        ProfileStep::Failed(BackendError::Transport { message }) => {
            assert_eq!(message, "building per-binding Kafka client: no client");
        }
        _ => panic!("no transport error"),
    }
}

#[test]
fn binding_without_overrides_has_the_shared_client_of_its_plugin() {
    let mut other = plugin("broker:9092", "grp");
    let mut plugin = plugin("broker:9092", "grp");
    let draft = draft_of("b", r#"{ "request_topic": "r", "response_topic": "s" }"#);
    let prepared = match other.prepare_profile(draft, None) {
        ProfileStep::Ready(prepared) => prepared,
        _ => panic!("not ready"),
    };
    assert!(plugin.register_profile(prepared, ()).is_ok());
    let shared = match plugin.shared_bundle(None) {
        ClientStep::Ready(client) => client,
        _ => panic!("no shared client"),
    };
    let profile = plugin.profile("b").ok().expect("profile");
    assert!(Arc::ptr_eq(&profile.static_bundle, &shared));
}

#[test]
fn what_another_plugin_prepared_is_handed_back() {
    for (brokers, group_id) in [("other:9092", "grp"), ("broker:9092", "other")] {
        let mut other = plugin(brokers, group_id);
        let mut plugin = plugin("broker:9092", "grp");
        let draft = draft_of("b", r#"{ "request_topic": "r", "response_topic": "s" }"#);
        let prepared = match other.prepare_profile(draft, None) {
            ProfileStep::Ready(prepared) => prepared,
            _ => panic!("not ready"),
        };
        let back = plugin.register_profile(prepared, ()).err().expect("refused");
        assert_eq!(back.draft().backend_name, "b");
        assert!(plugin.profile("b").is_err());
        assert!(other.register_profile(back, ()).is_ok());
    }
}

#[test]
fn binding_with_overrides_has_a_client_apart() {
    let mut plugin = plugin("broker:9092", "grp");
    let built = register(
        &mut plugin,
        "b",
        r#"{ "request_topic": "r", "response_topic": "s", "bootstrap_servers": "broker:9092" }"#,
    )
    .expect("registered");
    assert_eq!(built, 1);
    let shared = match plugin.shared_bundle(None) {
        ClientStep::Ready(client) => client,
        _ => panic!("no shared client"),
    };
    let profile = plugin.profile("b").ok().expect("profile");
    assert!(!Arc::ptr_eq(&profile.static_bundle, &shared));
}

#[test]
fn register_profile_rejects_divergent_bootstrap_override() {
    let mut plugin = plugin("broker:9092", "grp");
    let message = invalid(register(
        &mut plugin,
        "divergent",
        r#"{
            "request_topic": "r",
            "response_topic": "s",
            "bootstrap_servers": "other-broker:9092"
        }"#,
    ));
    assert_eq!(
        message,
        "Kafka bindings must share connection params: binding 'divergent' overrides \
         bootstrap_servers=\"other-broker:9092\", but the plugin is configured with \
         bootstrap_servers=\"broker:9092\". Per-binding isolation is not yet supported \
         (see FUTURE.md)."
    );
    assert!(plugin.profile("divergent").is_err());
    register(
        &mut plugin,
        "matching",
        r#"{
            "request_topic": "r",
            "response_topic": "s",
            "bootstrap_servers": "broker:9092"
        }"#,
    )
    .expect("matching per-binding bootstrap_servers must be accepted");
}

#[test]
fn refused_brokers_are_quoted_as_debug_shows_them() {
    let spec = spec_of(
        r#"{ "request_topic": "r", "response_topic": "s", "bootstrap_servers": "a\"\nb" }"#,
    );
    match validate_spec("x", &spec, false, "c\td") {
        Err(BackendError::InvalidSpec { message }) => {
            assert!(message.contains(&format!("={:?},", "a\"\nb")));
            assert!(message.contains(&format!("={:?}.", "c\td")));
        }
        _ => panic!("accepted"),
    }
}

#[test]
fn brokers_are_free_where_none_are_shared_or_a_token_stands_in_them() {
    let spec = spec_of(
        r#"{ "request_topic": "r", "response_topic": "s", "bootstrap_servers": "own:9092" }"#,
    );
    assert!(validate_spec("b", &spec, false, "").is_ok());
    assert!(validate_spec("b", &spec, true, "shared:9092").is_ok());
    assert!(validate_spec("b", &spec, false, "shared:9092").is_err());
}

#[test]
fn register_profile_preserves_sasl_tls_secure_default() {
    let spec = spec_of(r#"{ "request_topic": "r", "response_topic": "s" }"#);
    assert!(
        spec.security_protocol.is_none(),
        "security_protocol must default to None (no plugin-forced downgrade)"
    );
    assert!(
        spec.sasl_mechanism.is_none(),
        "sasl_mechanism must default to None (no plugin-forced downgrade)"
    );
    assert!(spec.sasl_username.is_none());
    assert!(spec.sasl_password.is_none());
}

#[test]
fn register_profile_rejects_cred_in_transport_only_topic() {
    let mut plugin = plugin("broker:9092", "grp");
    for (bad, field) in [
        (
            r#"{ "request_topic": "cred://vault/topic", "response_topic": "s" }"#,
            "request_topic",
        ),
        (
            r#"{ "request_topic": "r", "response_topic": "cred://vault/topic" }"#,
            "response_topic",
        ),
    ] {
        assert_eq!(
            invalid(register(&mut plugin, "bad", bad)),
            format!("{field} must not contain a cred:// reference")
        );
    }
}

#[test]
fn first_fault_is_reported() {
    let spec = spec_of(
        r#"{
            "request_topic": "cred://a/b",
            "response_topic": "x\u0000y",
            "timeout_ms": 0,
            "max_response_bytes": 0
        }"#,
    );
    match validate_spec("b", &spec, false, "") {
        Err(BackendError::InvalidSpec { message }) => {
            assert_eq!(message, "Kafka topic 'x\0y' is invalid");
        }
        _ => panic!("accepted"),
    }
}

#[test]
fn execute_without_registered_profile_errors() {
    let plugin = plugin("127.0.0.1:9092", "mcpg-test");
    match plugin.profile("unknown").err().expect("no profile") {
        BackendError::ProfileNotFound { backend_name } => assert_eq!(backend_name, "unknown"),
        other => panic!("{other:?}"),
    }
}

#[test]
fn registering_again_replaces_that_binding_only() {
    let mut plugin = plugin("127.0.0.1:9092", "mcpg-test");
    let block = |topic: &str| {
        format!(r#"{{ "request_topic": "{topic}", "response_topic": "s" }}"#)
    };
    register(&mut plugin, "a", &block("a1")).expect("a");
    register(&mut plugin, "b", &block("b1")).expect("b");
    let under_way = plugin.profile("a").ok().expect("a");
    register(&mut plugin, "a", &block("a2")).expect("a again");
    assert_eq!(under_way.request_topic, "a1");
    assert_eq!(plugin.profile("a").ok().expect("a").request_topic, "a2");
    assert_eq!(plugin.profile("b").ok().expect("b").request_topic, "b1");
    assert!(register(&mut plugin, "a", &block("cred://x/y")).is_err());
    assert_eq!(plugin.profile("a").ok().expect("a").request_topic, "a2");
}

#[test]
fn overrides_get_a_client_of_their_own() {
    let spec = spec_of(
        r#"{
            "request_topic": "r",
            "response_topic": "s",
            "sasl_username": "u",
            "sasl_password": "cred://vault/pw",
            "security_protocol": "SASL_PLAINTEXT",
            "sasl_mechanism": "PLAIN"
        }"#,
    );
    let params = dedicated_params(&spec, &tokens_of(&spec), "broker:9092", "grp").expect("own client");
    assert_eq!(params.bootstrap_servers, "broker:9092");
    assert_eq!(params.group_id, "grp");
    assert_eq!(params.sasl_username.as_deref(), Some("u"));
    assert_eq!(params.sasl_password.as_deref(), Some("cred://vault/pw"));
    let producer = producer_config(&params);
    let consumer = consumer_config(&params);
    for config in [&producer, &consumer] {
        assert_eq!(config.get("bootstrap.servers"), Some("broker:9092"));
        assert_eq!(config.get("security.protocol"), Some("SASL_PLAINTEXT"));
        assert_eq!(config.get("sasl.mechanism"), Some("PLAIN"));
        assert_eq!(config.get("sasl.username"), Some("u"));
        assert_eq!(config.get("sasl.password"), Some("cred://vault/pw"));
    }
    assert_eq!(producer.get("message.timeout.ms"), Some("5000"));
    assert_eq!(producer.get("group.id"), None);
    assert_eq!(consumer.get("group.id"), Some("grp"));
    assert_eq!(consumer.get("auto.offset.reset"), Some("latest"));
    assert_eq!(consumer.get("enable.auto.commit"), Some("true"));
}

#[test]
fn bindings_without_overrides_or_with_tokens_take_the_shared_client() {
    let plain = spec_of(r#"{ "request_topic": "r", "response_topic": "s" }"#);
    assert!(dedicated_params(&plain, &tokens_of(&plain), "b:9092", "g").is_none());
    let with_token = spec_of(
        r#"{ "request_topic": "r", "response_topic": "s", "sasl_password": "${cred://i/t}" }"#,
    );
    assert!(dedicated_params(&with_token, &tokens_of(&with_token), "b:9092", "g").is_none());
}

#[test]
fn unset_security_stays_unset() {
    let params = shared_params("b:9092", "g");
    for config in [producer_config(&params), consumer_config(&params)] {
        for key in ["security.protocol", "sasl.mechanism", "sasl.username", "sasl.password"] {
            assert_eq!(config.get(key), None);
        }
    }
}

#[test]
fn producer_idempotence_unchanged() {
    let spec = spec_of(
        r#"{
            "request_topic": "x",
            "response_topic": "y",
            "timeout_ms": 1000,
            "max_response_bytes": 1024
        }"#,
    );
    let serialized = format!("{spec:?}");
    assert!(
        !serialized.contains("enable.idempotence"),
        "plugin spec must not surface enable.idempotence; serialized: {serialized}"
    );
    let config = producer_config(&shared_params("b:9092", "g"));
    assert_eq!(config.get("enable.idempotence"), None);
}
