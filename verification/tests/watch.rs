use mcpg_plugin_backend_kafka::error::WatchError;
use mcpg_plugin_backend_kafka::spec::{
    default_watch_group_id, watch_spec, KafkaPluginConfig, KafkaWatchSpec,
};
use mcpg_plugin_backend_kafka::watch::{watch_step, WatchAction, WatchInput};
use mcpg_plugin_backend_kafka::KafkaWatchPlugin;
use serde_json::Value;

/// Reads a watch block the way the gateway hands it over.
fn parse(block: &str) -> Result<KafkaWatchSpec, WatchError> {
    let value: Value = serde_json::from_str(block).expect("json");
    let text = |key: &str| value.get(key).and_then(Value::as_str).map(str::to_owned);
    watch_spec(match text("topic") {
        Some(topic) => Ok((topic, text("group_id"))),
        None => Err("missing field `topic`".to_owned()),
    })
}

fn message_of(error: WatchError) -> String {
    match error {
        WatchError::InvalidSpec { message } => format!("invalid: {message}"),
        WatchError::Subscribe { message } => format!("subscribe: {message}"),
    }
}

#[test]
fn watch_spec_uses_default_group_id() {
    let spec = parse(r#"{ "topic": "changes" }"#).expect("spec");
    assert_eq!(spec.topic, "changes");
    assert_eq!(spec.group_id, "mcpg-resource-watcher");
    assert_eq!(default_watch_group_id(), "mcpg-resource-watcher");
}

#[test]
fn watch_spec_takes_a_group_id() {
    let spec = parse(r#"{ "topic": "changes", "group_id": "g" }"#).expect("spec");
    assert_eq!(spec.group_id, "g");
}

#[test]
fn unreadable_watch_block_is_an_invalid_spec() {
    let error = parse(r#"{ "group_id": "g" }"#).expect_err("no topic");
    assert_eq!(
        message_of(error),
        "invalid: Kafka watch spec: missing field `topic`"
    );
}

#[test]
fn watch_plugin_kind_is_kafka_topic() {
    let plugin = KafkaWatchPlugin::new("127.0.0.1:9092");
    assert_eq!(plugin.kind(), "kafka_topic");
}

#[test]
fn blank_topic_is_refused() {
    let plugin = KafkaWatchPlugin::new("127.0.0.1:9092");
    for topic in ["", "  \t"] {
        let spec = KafkaWatchSpec::from_fields(topic.to_owned(), None);
        let error = plugin.watch(spec).err().expect("blank topic");
        assert_eq!(message_of(error), "invalid: topic must not be empty");
    }
}

#[test]
fn watch_consumer_sees_new_records_only() {
    let config = KafkaPluginConfig::from_fields(Some("b1:9092,b2:9092".to_owned()), Some("replies".to_owned()));
    let plugin = KafkaWatchPlugin::from_config(config);
    let spec = KafkaWatchSpec::from_fields("changes".to_owned(), None);
    let opening = plugin.watch(spec).ok().expect("watch");
    assert_eq!(opening.topic, "changes");
    assert_eq!(opening.config.get("bootstrap.servers"), Some("b1:9092,b2:9092"));
    assert_eq!(opening.config.get("group.id"), Some("mcpg-resource-watcher"));
    assert_eq!(opening.config.get("enable.auto.commit"), Some("true"));
    assert_eq!(opening.config.get("auto.offset.reset"), Some("latest"));
    assert_eq!(opening.config.get("sasl.username"), None);
    let subscribing = opening.created(Ok(())).expect("created");
    assert_eq!(subscribing.topic, "changes");
    assert!(subscribing.subscribed(Ok(())).is_ok());
}

#[test]
fn failures_of_the_consumer_are_subscribe_errors() {
    let plugin = KafkaWatchPlugin::new("b:9092");
    let open = || {
        plugin
            .watch(KafkaWatchSpec::from_fields("changes".to_owned(), None))
            .ok()
            .expect("watch")
    };
    let error = open().created(Err("no memory".to_owned())).expect_err("creation failed");
    assert_eq!(
        message_of(error),
        "subscribe: failed to create Kafka consumer: no memory"
    );
    let error = open()
        .created(Ok(()))
        .expect("created")
        .subscribed(Err("denied".to_owned()))
        .expect_err("subscription failed");
    assert_eq!(message_of(error), "subscribe: subscribe to 'changes': denied");
}

/// Runs a watch over its inputs and counts what it emits.
fn emitted(inputs: &[WatchInput]) -> usize {
    let mut count = 0;
    for input in inputs {
        match watch_step(input) {
            WatchAction::Emit => count += 1,
            WatchAction::KeepPolling => {}
            WatchAction::Stop => return count,
        }
    }
    count
}

#[test]
fn one_event_per_message_through_consumer_errors() {
    assert_eq!(
        emitted(&[
            WatchInput::Message,
            WatchInput::ConsumerError,
            WatchInput::Message,
            WatchInput::Message,
        ]),
        3
    );
    assert_eq!(
        emitted(&[WatchInput::ConsumerError, WatchInput::ConsumerError]),
        0
    );
}

#[test]
fn nothing_is_emitted_after_the_end() {
    assert_eq!(
        emitted(&[
            WatchInput::Message,
            WatchInput::Cancelled,
            WatchInput::Message,
        ]),
        1
    );
    assert_eq!(
        emitted(&[
            WatchInput::Message,
            WatchInput::Message,
            WatchInput::StreamEnded,
            WatchInput::Message,
        ]),
        2
    );
}
