//! The watch strategy of kind `kafka_topic`: any record on a topic counts as a change of
//! the watched resource.
use rdkafka::config::ClientConfig;
use vstd::prelude::*;

use crate::connection::{
    client_settings, lemma_watch_settings, watch_consumer_config, watch_settings,
};
use crate::error::{WatchError, WatchErrorView};
use crate::spec::{KafkaPluginConfig, KafkaWatchSpec};
use crate::text::{blank, is_blank, join};

verus! {

/// The watch plugin of kind `kafka_topic`.
#[derive(Debug)]
pub struct KafkaWatchPlugin {
    /// The broker list of every watch.
    pub bootstrap_servers: String,
}

/// A watch whose consumer is to be created from `config`.
pub struct OpeningWatch {
    /// The topic to watch.
    pub topic: String,
    /// The configuration of the consumer.
    pub config: ClientConfig,
}

/// A watch whose consumer is to be subscribed to `topic`.
#[derive(Debug)]
pub struct SubscribingWatch {
    /// The topic to watch.
    pub topic: String,
}

impl KafkaWatchPlugin {
    /// A plugin that watches topics of these brokers.
    pub fn new(bootstrap_servers: &str) -> (plugin: Self)
        ensures
            plugin.bootstrap_servers@ == bootstrap_servers@,
    {
        KafkaWatchPlugin { bootstrap_servers: bootstrap_servers.to_owned() }
    }

    /// A plugin that watches topics of the configured brokers. The configured consumer
    /// group is that of the reply consumers, and no watch joins it.
    pub fn from_config(config: KafkaPluginConfig) -> (plugin: Self)
        ensures
            plugin.bootstrap_servers@ == config.bootstrap_servers@,
    {
        KafkaWatchPlugin { bootstrap_servers: config.bootstrap_servers }
    }

    /// The kind of watch that this plugin serves.
    pub fn kind(&self) -> (kind: &'static str)
        ensures
            kind@ == "kafka_topic"@,
    {
        "kafka_topic"
    }

    /// Begins a watch. A topic that is blank is refused.
    pub fn watch(&self, spec: KafkaWatchSpec) -> (watch: Result<OpeningWatch, WatchError>)
        ensures
            if is_blank(spec.topic@) {
                watch matches Err(e) && e@ == WatchErrorView::InvalidSpec(
                    "topic must not be empty"@,
                )
            } else {
                watch matches Ok(w) && {
                    &&& w.topic@ == spec.topic@
                    &&& client_settings(w.config) == watch_settings(
                        self.bootstrap_servers@,
                        spec.group_id@,
                    )
                }
            },
    {
        if blank(&spec.topic) {
            return Err(WatchError::InvalidSpec { message: "topic must not be empty".to_owned() });
        }
        let config = watch_consumer_config(&self.bootstrap_servers, &spec.group_id);
        Ok(OpeningWatch { topic: spec.topic, config })
    }
}

impl OpeningWatch {
    /// Goes on to subscribe the consumer if it is there, and ends the watch otherwise.
    /// `outcome` is why it is not.
    pub fn created(self, outcome: Result<(), String>) -> (next: Result<
        SubscribingWatch,
        WatchError,
    >)
        ensures
            match outcome {
                Ok(_) => next matches Ok(w) && w.topic@ == self.topic@,
                Err(cause) => next matches Err(e) && e@ == WatchErrorView::Subscribe(
                    "failed to create Kafka consumer: "@ + cause@,
                ),
            },
    {
        match outcome {
            Ok(_) => Ok(SubscribingWatch { topic: self.topic }),
            Err(cause) => Err(
                WatchError::Subscribe {
                    message: join("failed to create Kafka consumer: ", &cause),
                },
            ),
        }
    }
}

impl SubscribingWatch {
    /// Whether the watch is open. `outcome` is why the consumer could not be subscribed.
    pub fn subscribed(self, outcome: Result<(), String>) -> (open: Result<(), WatchError>)
        ensures
            match outcome {
                Ok(_) => open is Ok,
                Err(cause) => open matches Err(e) && e@ == WatchErrorView::Subscribe(
                    "subscribe to '"@ + self.topic@ + "': "@ + cause@,
                ),
            },
    {
        match outcome {
            Ok(_) => Ok(()),
            Err(cause) => Err(
                WatchError::Subscribe {
                    message: join(&join(&join("subscribe to '", &self.topic), "': "), &cause),
                },
            ),
        }
    }
}

/// What wakes an open watch.
pub enum WatchInput {
    /// The watch was cancelled.
    Cancelled,
    /// A record came in. What is in it does not matter.
    Message,
    /// The consumer reported a failure that it recovers from.
    ConsumerError,
    /// The consumer is gone and will not resume.
    StreamEnded,
}

/// What an open watch does next.
pub enum WatchAction {
    /// Emit a watch event, then wait on.
    Emit,
    /// Wait on.
    KeepPolling,
    /// End.
    Stop,
}

/// What an open watch does when it is woken.
pub open spec fn watch_reaction(input: WatchInput) -> WatchAction {
    match input {
        WatchInput::Cancelled => WatchAction::Stop,
        WatchInput::Message => WatchAction::Emit,
        WatchInput::ConsumerError => WatchAction::KeepPolling,
        WatchInput::StreamEnded => WatchAction::Stop,
    }
}

/// What an open watch does when it is woken.
pub fn watch_step(input: &WatchInput) -> (action: WatchAction)
    ensures
        action == watch_reaction(*input),
{
    match input {
        WatchInput::Cancelled => WatchAction::Stop,
        WatchInput::Message => WatchAction::Emit,
        WatchInput::ConsumerError => WatchAction::KeepPolling,
        WatchInput::StreamEnded => WatchAction::Stop,
    }
}

/// How many events a watch emits over `inputs`: it reacts to each in turn until it stops.
pub open spec fn emissions(inputs: Seq<WatchInput>) -> nat
    decreases inputs.len(),
{
    if inputs.len() == 0 {
        0
    } else {
        match watch_reaction(inputs[0]) {
            WatchAction::Emit => 1 + emissions(inputs.drop_first()),
            WatchAction::KeepPolling => emissions(inputs.drop_first()),
            WatchAction::Stop => 0,
        }
    }
}

/// Whether an input is a record.
pub open spec fn is_message() -> spec_fn(WatchInput) -> bool {
    |input: WatchInput| input is Message
}

/// An open watch emits exactly one event per record, through any number of consumer
/// failures.
pub proof fn law_one_event_per_message(inputs: Seq<WatchInput>)
    requires
        forall|i: int|
            0 <= i < inputs.len() ==> (#[trigger] inputs[i]) is Message
                || inputs[i] is ConsumerError,
    ensures
        emissions(inputs) == inputs.filter(is_message()).len(),
    decreases inputs.len(),
{
    reveal(Seq::filter);
    if inputs.len() > 0 {
        let rest = inputs.drop_first();
        assert forall|i: int| 0 <= i < rest.len() implies (#[trigger] rest[i]) is Message
            || rest[i] is ConsumerError by {
            assert(rest[i] == inputs[i + 1]);
        }
        law_one_event_per_message(rest);
        lemma_filter_head(inputs);
    }
}

/// The records among some inputs are the first, if it is one, and those of the rest.
proof fn lemma_filter_head(inputs: Seq<WatchInput>)
    requires
        inputs.len() > 0,
    ensures
        inputs.filter(is_message()).len() == inputs.drop_first().filter(is_message()).len() + (
        if inputs[0] is Message {
            1int
        } else {
            0int
        }),
    decreases inputs.len(),
{
    reveal(Seq::filter);
    if inputs.len() == 1 {
        assert(inputs.drop_last() =~= Seq::<WatchInput>::empty());
        assert(inputs.drop_first() =~= Seq::<WatchInput>::empty());
        assert(Seq::<WatchInput>::empty().filter(is_message()).len() == 0);
    } else {
        lemma_filter_head(inputs.drop_last());
        assert(inputs.drop_last().drop_first() =~= inputs.drop_first().drop_last());
    }
}

/// Once a watch is cancelled or its consumer is gone, nothing more is emitted.
pub proof fn law_nothing_after_the_end(inputs: Seq<WatchInput>, end: int)
    requires
        0 <= end < inputs.len(),
        inputs[end] is Cancelled || inputs[end] is StreamEnded,
    ensures
        emissions(inputs) == emissions(inputs.take(end)),
    decreases inputs.len(),
{
    let head = inputs.take(end);
    if end > 0 {
        let rest = inputs.drop_first();
        assert(rest[end - 1] == inputs[end]);
        law_nothing_after_the_end(rest, end - 1);
        assert(head.drop_first() =~= rest.take(end - 1));
        assert(head[0] == inputs[0]);
    }
}


/// A watch is refused if and only if its topic is blank. Otherwise its consumer is set to the
/// plugin's brokers and the watch's own group, to new records only and to committing by
/// itself, and to nothing else.
pub proof fn law_watch_opens_on_its_topic(
    plugin: KafkaWatchPlugin,
    spec: KafkaWatchSpec,
    watch: Result<OpeningWatch, WatchError>,
    key: Seq<char>,
)
    requires
        call_ensures(KafkaWatchPlugin::watch, (&plugin, spec), watch),
    ensures
        watch is Err <==> is_blank(spec.topic@),
        watch matches Err(e) ==> (e matches WatchError::InvalidSpec { message } && message@
            == "topic must not be empty"@),
        watch matches Ok(w) ==> {
            let s = client_settings(w.config);
            &&& w.topic@ == spec.topic@
            &&& s.contains_key("bootstrap.servers"@) && s["bootstrap.servers"@]
                == plugin.bootstrap_servers@
            &&& s.contains_key("group.id"@) && s["group.id"@] == spec.group_id@
            &&& s.contains_key("auto.offset.reset"@) && s["auto.offset.reset"@] == "latest"@
            &&& s.contains_key("enable.auto.commit"@) && s["enable.auto.commit"@] == "true"@
            &&& s.contains_key(key) ==> key == "bootstrap.servers"@ || key == "group.id"@ || key
                == "auto.offset.reset"@ || key == "enable.auto.commit"@
        },
{
    lemma_watch_settings(plugin.bootstrap_servers@, spec.group_id@, key);
}

/// A watch goes on to the topic it was opened on; a consumer that could not be created or
/// subscribed ends it with the cause. The plugin serves the brokers it is made with and watches
/// of the kind `kafka_topic`.
pub proof fn law_watch_is_set_up_step_by_step(
    bootstrap_servers: &str,
    made: KafkaWatchPlugin,
    config: KafkaPluginConfig,
    configured: KafkaWatchPlugin,
    kind: &'static str,
    opening: OpeningWatch,
    cause: String,
    created: Result<SubscribingWatch, WatchError>,
    uncreated: Result<SubscribingWatch, WatchError>,
    subscribing: SubscribingWatch,
    open: Result<(), WatchError>,
    unsubscribed: Result<(), WatchError>,
)
    requires
        call_ensures(KafkaWatchPlugin::new, (bootstrap_servers,), made),
        call_ensures(KafkaWatchPlugin::from_config, (config,), configured),
        call_ensures(KafkaWatchPlugin::kind, (&configured,), kind),
        call_ensures(OpeningWatch::created, (opening, Ok::<(), String>(())), created),
        call_ensures(OpeningWatch::created, (opening, Err::<(), String>(cause)), uncreated),
        call_ensures(SubscribingWatch::subscribed, (subscribing, Ok::<(), String>(())), open),
        call_ensures(
            SubscribingWatch::subscribed,
            (subscribing, Err::<(), String>(cause)),
            unsubscribed,
        ),
    ensures
        made.bootstrap_servers@ == bootstrap_servers@,
        configured.bootstrap_servers@ == config.bootstrap_servers@,
        kind@ == "kafka_topic"@,
        created matches Ok(next) && next.topic@ == opening.topic@,
        uncreated matches Err(WatchError::Subscribe { message }) && message@
            == "failed to create Kafka consumer: "@ + cause@,
        open is Ok,
        unsubscribed matches Err(WatchError::Subscribe { message }) && message@
            == "subscribe to '"@ + subscribing.topic@ + "': "@ + cause@,
{
}

/// An open watch emits for a record, waits on through a failure of its consumer, and ends when
/// it is cancelled or its consumer is gone.
pub proof fn law_watch_reacts_to_its_inputs(input: WatchInput, action: WatchAction)
    requires
        call_ensures(watch_step, (&input,), action),
    ensures
        action is Emit <==> input is Message,
        action is KeepPolling <==> input is ConsumerError,
        action is Stop <==> input is Cancelled || input is StreamEnded,
{
}

} // verus!
