//! The plugin configuration, the binding spec and the watch spec: their defaults
//! and the rules a binding spec has to meet.
use vstd::prelude::*;
use vstd::string::*;

use crate::error::{BackendError, BackendErrorView, WatchError, WatchErrorView};
use crate::text::{
    blank, chars_of, contains_char, contains_text, is_blank, join, occurs_in, opt_text, same_text,
};

verus! {

/// The longest topic name, in characters.
pub const MAX_TOPIC_CHARS: usize = 249;

/// The default budget of a call, in milliseconds.
pub fn default_timeout_ms() -> (ms: u64)
    ensures
        ms == 10_000,
{
    10_000
}

/// The default cap of a reply payload: 64 KiB.
pub fn default_max_response_bytes() -> (bytes: usize)
    ensures
        bytes == 64 * 1024,
{
    65_536
}

/// The default consumer group of the reply consumers.
pub fn default_kafka_group_id() -> (group_id: String)
    ensures
        group_id@ == "mcpg"@,
{
    "mcpg".to_owned()
}

/// The default consumer group of a watch.
pub fn default_watch_group_id() -> (group_id: String)
    ensures
        group_id@ == "mcpg-resource-watcher"@,
{
    "mcpg-resource-watcher".to_owned()
}

/// The plugin-level `config:` block, shared by every binding.
#[derive(Debug)]
pub struct KafkaPluginConfig {
    /// The broker list.
    pub bootstrap_servers: String,
    /// The consumer group of the reply consumers.
    pub group_id: String,
}

impl Default for KafkaPluginConfig {
    /// No brokers and the default consumer group.
    fn default() -> (config: Self)
        ensures
            config.bootstrap_servers@ == Seq::<char>::empty(),
            config.group_id@ == "mcpg"@,
    {
        KafkaPluginConfig { bootstrap_servers: String::new(), group_id: default_kafka_group_id() }
    }
}

impl KafkaPluginConfig {
    /// The configuration of a block that gives the fields that are `Some`.
    pub fn from_fields(bootstrap_servers: Option<String>, group_id: Option<String>) -> (config:
        Self)
        ensures
            config.bootstrap_servers@ == match bootstrap_servers {
                Some(s) => s@,
                None => Seq::<char>::empty(),
            },
            config.group_id@ == match group_id {
                Some(s) => s@,
                None => "mcpg"@,
            },
    {
        KafkaPluginConfig {
            bootstrap_servers: match bootstrap_servers {
                Some(s) => s,
                None => String::new(),
            },
            group_id: match group_id {
                Some(s) => s,
                None => default_kafka_group_id(),
            },
        }
    }
}

/// The `backend:` block of a binding, defaults applied.
#[derive(Debug)]
pub struct KafkaBackendSpec {
    /// The topic requests are produced to.
    pub request_topic: String,
    /// The topic replies are consumed from.
    pub response_topic: String,
    /// The budget of a call.
    pub timeout_ms: u64,
    /// The cap of a reply payload.
    pub max_response_bytes: usize,
    /// Overrides the plugin-level broker list. May carry credential tokens.
    pub bootstrap_servers: Option<String>,
    /// The SASL username. May carry credential tokens.
    pub sasl_username: Option<String>,
    /// The SASL password. May carry credential tokens.
    pub sasl_password: Option<String>,
    /// `security.protocol` of the client.
    pub security_protocol: Option<String>,
    /// `sasl.mechanism` of the client.
    pub sasl_mechanism: Option<String>,
}

/// What a [`KafkaBackendSpec`] says, as text.
pub ghost struct BackendSpecView {
    /// See [`KafkaBackendSpec::request_topic`].
    pub request_topic: Seq<char>,
    /// See [`KafkaBackendSpec::response_topic`].
    pub response_topic: Seq<char>,
    /// See [`KafkaBackendSpec::timeout_ms`].
    pub timeout_ms: u64,
    /// See [`KafkaBackendSpec::max_response_bytes`].
    pub max_response_bytes: usize,
    /// See [`KafkaBackendSpec::bootstrap_servers`].
    pub bootstrap_servers: Option<Seq<char>>,
    /// See [`KafkaBackendSpec::sasl_username`].
    pub sasl_username: Option<Seq<char>>,
    /// See [`KafkaBackendSpec::sasl_password`].
    pub sasl_password: Option<Seq<char>>,
    /// See [`KafkaBackendSpec::security_protocol`].
    pub security_protocol: Option<Seq<char>>,
    /// See [`KafkaBackendSpec::sasl_mechanism`].
    pub sasl_mechanism: Option<Seq<char>>,
}

impl View for KafkaBackendSpec {
    type V = BackendSpecView;

    open spec fn view(&self) -> BackendSpecView {
        BackendSpecView {
            request_topic: self.request_topic@,
            response_topic: self.response_topic@,
            timeout_ms: self.timeout_ms,
            max_response_bytes: self.max_response_bytes,
            bootstrap_servers: opt_text(self.bootstrap_servers),
            sasl_username: opt_text(self.sasl_username),
            sasl_password: opt_text(self.sasl_password),
            security_protocol: opt_text(self.security_protocol),
            sasl_mechanism: opt_text(self.sasl_mechanism),
        }
    }
}

/// The `backend:` block of a binding as written: a field that is not given is
/// `None`.
#[derive(Debug)]
pub struct KafkaBackendFields {
    /// See [`KafkaBackendSpec::request_topic`].
    pub request_topic: String,
    /// See [`KafkaBackendSpec::response_topic`].
    pub response_topic: String,
    /// See [`KafkaBackendSpec::timeout_ms`].
    pub timeout_ms: Option<u64>,
    /// See [`KafkaBackendSpec::max_response_bytes`].
    pub max_response_bytes: Option<usize>,
    /// See [`KafkaBackendSpec::bootstrap_servers`].
    pub bootstrap_servers: Option<String>,
    /// See [`KafkaBackendSpec::sasl_username`].
    pub sasl_username: Option<String>,
    /// See [`KafkaBackendSpec::sasl_password`].
    pub sasl_password: Option<String>,
    /// See [`KafkaBackendSpec::security_protocol`].
    pub security_protocol: Option<String>,
    /// See [`KafkaBackendSpec::sasl_mechanism`].
    pub sasl_mechanism: Option<String>,
}

impl KafkaBackendFields {
    /// The spec of the block: the budget and the cap take their defaults where they are
    /// not given; nothing else has a default.
    pub open spec fn with_defaults(self) -> BackendSpecView {
        BackendSpecView {
            request_topic: self.request_topic@,
            response_topic: self.response_topic@,
            timeout_ms: match self.timeout_ms {
                Some(ms) => ms,
                None => 10_000,
            },
            max_response_bytes: match self.max_response_bytes {
                Some(bytes) => bytes,
                None => 65_536,
            },
            bootstrap_servers: opt_text(self.bootstrap_servers),
            sasl_username: opt_text(self.sasl_username),
            sasl_password: opt_text(self.sasl_password),
            security_protocol: opt_text(self.security_protocol),
            sasl_mechanism: opt_text(self.sasl_mechanism),
        }
    }
}

impl KafkaBackendSpec {
    /// The spec of a block, defaults applied.
    pub fn from_fields(fields: KafkaBackendFields) -> (spec: Self)
        ensures
            spec@ == fields.with_defaults(),
    {
        KafkaBackendSpec {
            request_topic: fields.request_topic,
            response_topic: fields.response_topic,
            timeout_ms: match fields.timeout_ms {
                Some(ms) => ms,
                None => default_timeout_ms(),
            },
            max_response_bytes: match fields.max_response_bytes {
                Some(bytes) => bytes,
                None => default_max_response_bytes(),
            },
            bootstrap_servers: fields.bootstrap_servers,
            sasl_username: fields.sasl_username,
            sasl_password: fields.sasl_password,
            security_protocol: fields.security_protocol,
            sasl_mechanism: fields.sasl_mechanism,
        }
    }
}

/// The `watch.strategy:` block of a resource, defaults applied.
#[derive(Debug)]
pub struct KafkaWatchSpec {
    /// The topic to watch.
    pub topic: String,
    /// The consumer group of the watch.
    pub group_id: String,
}

impl KafkaWatchSpec {
    /// The spec of a block that gives the fields that are `Some`.
    pub fn from_fields(topic: String, group_id: Option<String>) -> (spec: Self)
        ensures
            spec.topic@ == topic@,
            spec.group_id@ == match group_id {
                Some(s) => s@,
                None => "mcpg-resource-watcher"@,
            },
    {
        KafkaWatchSpec {
            topic,
            group_id: match group_id {
                Some(s) => s,
                None => default_watch_group_id(),
            },
        }
    }
}

/// The spec of a binding whose block has been read, or the error of one that could not be.
pub fn binding_spec(parsed: Result<KafkaBackendFields, String>) -> (spec: Result<
    KafkaBackendSpec,
    BackendError,
>)
    ensures
        match parsed {
            Ok(fields) => spec matches Ok(s) && s@ == fields.with_defaults(),
            Err(cause) => spec matches Err(e) && e@ == BackendErrorView::InvalidSpec(
                "Kafka binding spec: "@ + cause@,
            ),
        },
{
    match parsed {
        Ok(fields) => Ok(KafkaBackendSpec::from_fields(fields)),
        Err(cause) => Err(
            BackendError::InvalidSpec { message: join("Kafka binding spec: ", &cause) },
        ),
    }
}

/// The spec of a watch whose block has been read, or the error of one that could not be.
/// The block gives a topic and perhaps a consumer group.
pub fn watch_spec(parsed: Result<(String, Option<String>), String>) -> (spec: Result<
    KafkaWatchSpec,
    WatchError,
>)
    ensures
        match parsed {
            Ok(block) => spec matches Ok(s) && {
                &&& s.topic@ == block.0@
                &&& s.group_id@ == match block.1 {
                    Some(group_id) => group_id@,
                    None => "mcpg-resource-watcher"@,
                }
            },
            Err(cause) => spec matches Err(e) && e@ == WatchErrorView::InvalidSpec(
                "Kafka watch spec: "@ + cause@,
            ),
        },
{
    match parsed {
        Ok((topic, group_id)) => Ok(KafkaWatchSpec::from_fields(topic, group_id)),
        Err(cause) => Err(WatchError::InvalidSpec { message: join("Kafka watch spec: ", &cause) }),
    }
}

/// `text` as its `Debug` rendering shows it: in double quotes, escaped.
pub uninterp spec fn quoted(text: Seq<char>) -> Seq<char>;

/// Renders `text` by the `Debug` implementation of `str` in the standard library.
/// The rendering is a function of the text alone; nothing else is claimed.
#[verifier::external_body]
fn quote(text: &str) -> (out: String)
    ensures
        out@ == quoted(text@),
{
    format!("{:?}", text)
}

/// What is wrong with the value of a topic, if anything.
pub open spec fn topic_fault(topic: Seq<char>) -> Option<Seq<char>> {
    if is_blank(topic) {
        Some("request_topic and response_topic must not be empty"@)
    } else if topic.contains('\0') || topic.len() > MAX_TOPIC_CHARS {
        Some("Kafka topic '"@ + topic + "' is invalid"@)
    } else {
        None
    }
}

/// What is wrong with the name of a topic that carries a credential reference.
pub open spec fn cred_fault(field: Seq<char>, topic: Seq<char>) -> Option<Seq<char>> {
    if occurs_in("cred://"@, topic) {
        Some(field + " must not contain a cred:// reference"@)
    } else {
        None
    }
}

/// What is wrong with a plaintext broker list that overrides the shared one, if
/// anything. An override that carries a credential token is resolved per caller
/// and cannot be compared here.
pub open spec fn brokers_fault(
    backend_name: Seq<char>,
    brokers: Option<Seq<char>>,
    brokers_carry_token: bool,
    shared: Seq<char>,
) -> Option<Seq<char>> {
    match brokers {
        Some(own) => if !brokers_carry_token && shared.len() > 0 && own != shared {
            Some(
                "Kafka bindings must share connection params: binding '"@ + backend_name
                    + "' overrides bootstrap_servers="@ + quoted(own)
                    + ", but the plugin is configured with bootstrap_servers="@ + quoted(shared)
                    + ". Per-binding isolation is not yet supported (see FUTURE.md)."@,
            )
        } else {
            None
        },
        None => None,
    }
}

/// The first of two faults.
pub open spec fn first_fault(a: Option<Seq<char>>, b: Option<Seq<char>>) -> Option<Seq<char>> {
    if a is Some {
        a
    } else {
        b
    }
}

/// What is wrong with the values of a binding spec taken by themselves, if
/// anything.
pub open spec fn values_fault(spec: BackendSpecView) -> Option<Seq<char>> {
    first_fault(
        topic_fault(spec.request_topic),
        first_fault(
            topic_fault(spec.response_topic),
            if spec.timeout_ms == 0 {
                Some("timeout_ms must be greater than 0"@)
            } else if spec.max_response_bytes == 0 {
                Some("max_response_bytes must be greater than 0"@)
            } else {
                first_fault(
                    cred_fault("request_topic"@, spec.request_topic),
                    cred_fault("response_topic"@, spec.response_topic),
                )
            },
        ),
    )
}

/// What is wrong with the spec of the binding `backend_name`, if anything, where
/// all bindings share the broker list `shared`.
pub open spec fn spec_fault(
    backend_name: Seq<char>,
    spec: BackendSpecView,
    brokers_carry_token: bool,
    shared: Seq<char>,
) -> Option<Seq<char>> {
    first_fault(
        values_fault(spec),
        brokers_fault(backend_name, spec.bootstrap_servers, brokers_carry_token, shared),
    )
}

/// Checks the value of a topic.
fn check_topic(topic: &str) -> (result: Result<(), BackendError>)
    ensures
        match result {
            Ok(_) => topic_fault(topic@) is None,
            Err(e) => topic_fault(topic@) matches Some(m) && e@ == BackendErrorView::InvalidSpec(m),
        },
{
    if blank(topic) {
        return Err(
            BackendError::InvalidSpec {
                message: "request_topic and response_topic must not be empty".to_owned(),
            },
        );
    }
    if contains_char(topic, '\0') || chars_of(topic).len() > MAX_TOPIC_CHARS {
        return Err(
            BackendError::InvalidSpec {
                message: join(&join("Kafka topic '", topic), "' is invalid"),
            },
        );
    }
    Ok(())
}

/// Checks that no credential reference stands in a topic.
fn check_plaintext(field: &str, topic: &str) -> (result: Result<(), BackendError>)
    ensures
        match result {
            Ok(_) => cred_fault(field@, topic@) is None,
            Err(e) => cred_fault(field@, topic@) matches Some(m) && e@
                == BackendErrorView::InvalidSpec(m),
        },
{
    if contains_text(topic, "cred://") {
        return Err(
            BackendError::InvalidSpec {
                message: join(field, " must not contain a cred:// reference"),
            },
        );
    }
    Ok(())
}

/// Checks that a plaintext broker list is the shared one.
fn check_brokers(
    backend_name: &str,
    brokers: &Option<String>,
    brokers_carry_token: bool,
    shared: &str,
) -> (result: Result<(), BackendError>)
    ensures
        ({
            let fault = brokers_fault(
                backend_name@,
                opt_text(*brokers),
                brokers_carry_token,
                shared@,
            );
            match result {
                Ok(_) => fault is None,
                Err(e) => fault matches Some(m) && e@ == BackendErrorView::InvalidSpec(m),
            }
        }),
{
    if let Some(own) = brokers {
        if !brokers_carry_token && !shared.is_empty() && !same_text(own, shared) {
            let mut message = join(
                "Kafka bindings must share connection params: binding '",
                backend_name,
            );
            message.append("' overrides bootstrap_servers=");
            message.append(&quote(own));
            message.append(", but the plugin is configured with bootstrap_servers=");
            message.append(&quote(shared));
            message.append(". Per-binding isolation is not yet supported (see FUTURE.md).");
            return Err(BackendError::InvalidSpec { message });
        }
    }
    Ok(())
}

/// Checks the spec of the binding `backend_name`, where all bindings share the
/// broker list `shared`; `brokers_carry_token` tells whether the spec's own broker
/// list carries a credential token. The first fault is reported.
pub fn validate_spec(
    backend_name: &str,
    spec: &KafkaBackendSpec,
    brokers_carry_token: bool,
    shared: &str,
) -> (result: Result<(), BackendError>)
    ensures
        ({
            let fault = spec_fault(backend_name@, spec@, brokers_carry_token, shared@);
            match result {
                Ok(_) => fault is None,
                Err(e) => fault matches Some(m) && e@ == BackendErrorView::InvalidSpec(m),
            }
        }),
{
    check_topic(&spec.request_topic)?;
    check_topic(&spec.response_topic)?;
    if spec.timeout_ms == 0 {
        return Err(
            BackendError::InvalidSpec { message: "timeout_ms must be greater than 0".to_owned() },
        );
    }
    if spec.max_response_bytes == 0 {
        return Err(
            BackendError::InvalidSpec {
                message: "max_response_bytes must be greater than 0".to_owned(),
            },
        );
    }
    check_plaintext("request_topic", &spec.request_topic)?;
    check_plaintext("response_topic", &spec.response_topic)?;
    check_brokers(backend_name, &spec.bootstrap_servers, brokers_carry_token, shared)
}

/// A topic name that says something, holds neither a NUL nor a credential reference, and
/// has at most 249 characters.
pub open spec fn is_plain_topic(topic: Seq<char>) -> bool {
    &&& !is_blank(topic)
    &&& !topic.contains('\0')
    &&& topic.len() <= 249
    &&& !occurs_in("cred://"@, topic)
}

/// The values of a spec without fault: plain topics, and a budget and a cap above zero.
pub proof fn law_accepted_values(spec: BackendSpecView)
    requires
        values_fault(spec) is None,
    ensures
        is_plain_topic(spec.request_topic),
        is_plain_topic(spec.response_topic),
        spec.timeout_ms > 0,
        spec.max_response_bytes > 0,
{
    assert(topic_fault(spec.request_topic) is None);
    assert(topic_fault(spec.response_topic) is None);
}

/// The values of a spec are accepted if and only if both topics say something, hold neither a
/// NUL nor a credential reference and have at most 249 characters, and the budget and the cap
/// are above zero. Nothing else is asked of them.
pub proof fn law_values_are_accepted_iff_usable(spec: KafkaBackendSpec)
    ensures
        values_fault(spec@) is None <==> {
            &&& !is_blank(spec.request_topic@)
            &&& !is_blank(spec.response_topic@)
            &&& !spec.request_topic@.contains('\0')
            &&& !spec.response_topic@.contains('\0')
            &&& spec.request_topic@.len() <= 249
            &&& spec.response_topic@.len() <= 249
            &&& !occurs_in("cred://"@, spec.request_topic@)
            &&& !occurs_in("cred://"@, spec.response_topic@)
            &&& spec.timeout_ms > 0
            &&& spec.max_response_bytes > 0
        },
{
}


/// A binding spec is accepted if and only if both topics say something, hold neither a NUL nor
/// a credential reference and have at most 249 characters, the budget and the cap are above
/// zero, and its broker list, if it brings one, carries a credential token or is that of the
/// plugin, if that has one.
pub proof fn law_binding_is_accepted_iff_usable(
    backend_name: &str,
    spec: KafkaBackendSpec,
    brokers_carry_token: bool,
    shared: &str,
    result: Result<(), BackendError>,
)
    requires
        call_ensures(validate_spec, (backend_name, &spec, brokers_carry_token, shared), result),
    ensures
        result is Ok <==> {
            &&& !is_blank(spec.request_topic@)
            &&& !is_blank(spec.response_topic@)
            &&& !spec.request_topic@.contains('\0')
            &&& !spec.response_topic@.contains('\0')
            &&& spec.request_topic@.len() <= 249
            &&& spec.response_topic@.len() <= 249
            &&& !occurs_in("cred://"@, spec.request_topic@)
            &&& !occurs_in("cred://"@, spec.response_topic@)
            &&& spec.timeout_ms > 0
            &&& spec.max_response_bytes > 0
            &&& {
                ||| spec.bootstrap_servers is None
                ||| brokers_carry_token
                ||| shared@.len() == 0
                ||| spec.bootstrap_servers matches Some(own) && own@ == shared@
            }
        },
        spec_fault(backend_name@, spec@, brokers_carry_token, shared@) is None <==> result is Ok,
{
}

/// What is said of a refused spec: the first of its faults, in the order of request topic,
/// response topic, budget, cap, credential references and brokers.
pub proof fn law_first_fault_is_named(
    backend_name: &str,
    spec: KafkaBackendSpec,
    brokers_carry_token: bool,
    shared: &str,
    result: Result<(), BackendError>,
)
    requires
        call_ensures(validate_spec, (backend_name, &spec, brokers_carry_token, shared), result),
    ensures
        result matches Err(e) ==> e is InvalidSpec,
        result matches Err(BackendError::InvalidSpec { message }) ==> {
            let said = message@;
            let request = spec.request_topic@;
            let response = spec.response_topic@;
            let unfit = |t: Seq<char>| t.contains('\0') || t.len() > 249;
            let request_fits = !is_blank(request) && !unfit(request);
            let topics_fit = request_fits && !is_blank(response) && !unfit(response);
            let limits_fit = topics_fit && spec.timeout_ms > 0 && spec.max_response_bytes > 0;
            &&& is_blank(request) ==> said == "request_topic and response_topic must not be empty"@
            &&& !is_blank(request) && unfit(request) ==> said == "Kafka topic '"@ + request
                + "' is invalid"@
            &&& request_fits && is_blank(response) ==> said
                == "request_topic and response_topic must not be empty"@
            &&& request_fits && !is_blank(response) && unfit(response) ==> said
                == "Kafka topic '"@ + response + "' is invalid"@
            &&& topics_fit && spec.timeout_ms == 0 ==> said == "timeout_ms must be greater than 0"@
            &&& topics_fit && spec.timeout_ms > 0 && spec.max_response_bytes == 0 ==> said
                == "max_response_bytes must be greater than 0"@
            &&& limits_fit && occurs_in("cred://"@, request) ==> said == "request_topic"@
                + " must not contain a cred:// reference"@
            &&& limits_fit && !occurs_in("cred://"@, request) && occurs_in("cred://"@, response)
                ==> said == "response_topic"@ + " must not contain a cred:// reference"@
            &&& limits_fit && !occurs_in("cred://"@, request) && !occurs_in("cred://"@, response)
                ==> (spec.bootstrap_servers matches Some(own) && said
                == "Kafka bindings must share connection params: binding '"@ + backend_name@
                + "' overrides bootstrap_servers="@ + quoted(own@)
                + ", but the plugin is configured with bootstrap_servers="@ + quoted(shared@)
                + ". Per-binding isolation is not yet supported (see FUTURE.md)."@)
        },
{
}

/// The spec of a block that could be read says what the block says; only a budget and a cap
/// that are not given are filled in. A block that could not be read is an invalid spec.
pub proof fn law_block_is_taken_as_it_is(
    fields: KafkaBackendFields,
    spec: Result<KafkaBackendSpec, BackendError>,
    cause: String,
    unread: Result<KafkaBackendSpec, BackendError>,
)
    requires
        call_ensures(binding_spec, (Ok(fields),), spec),
        call_ensures(binding_spec, (Err(cause),), unread),
    ensures
        spec matches Ok(s) && {
            &&& s.request_topic@ == fields.request_topic@
            &&& s.response_topic@ == fields.response_topic@
            &&& fields.timeout_ms matches Some(ms) ==> s.timeout_ms == ms
            &&& fields.timeout_ms is None ==> s.timeout_ms == 10_000
            &&& fields.max_response_bytes matches Some(bytes) ==> s.max_response_bytes == bytes
            &&& fields.max_response_bytes is None ==> s.max_response_bytes == 65_536
            &&& opt_text(s.bootstrap_servers) == opt_text(fields.bootstrap_servers)
            &&& opt_text(s.sasl_username) == opt_text(fields.sasl_username)
            &&& opt_text(s.sasl_password) == opt_text(fields.sasl_password)
            &&& opt_text(s.security_protocol) == opt_text(fields.security_protocol)
            &&& opt_text(s.sasl_mechanism) == opt_text(fields.sasl_mechanism)
        },
        unread matches Err(BackendError::InvalidSpec { message }) && message@
            == "Kafka binding spec: "@ + cause@,
{
}

/// The configuration of the plugin and the spec of a watch say what their blocks say; only a
/// field that is not given is filled in.
pub proof fn law_blocks_are_filled_in_with_defaults(
    brokers: Option<String>,
    group_id: Option<String>,
    config: KafkaPluginConfig,
    no_block: KafkaPluginConfig,
    topic: String,
    watch: Result<KafkaWatchSpec, WatchError>,
    cause: String,
    unread: Result<KafkaWatchSpec, WatchError>,
)
    requires
        call_ensures(KafkaPluginConfig::from_fields, (brokers, group_id), config),
        call_ensures(KafkaPluginConfig::default, (), no_block),
        call_ensures(watch_spec, (Ok((topic, group_id)),), watch),
        call_ensures(watch_spec, (Err(cause),), unread),
    ensures
        brokers matches Some(text) ==> config.bootstrap_servers@ == text@,
        brokers is None ==> config.bootstrap_servers@.len() == 0,
        group_id matches Some(text) ==> config.group_id@ == text@,
        group_id is None ==> config.group_id@ == "mcpg"@,
        no_block.bootstrap_servers@.len() == 0,
        no_block.group_id@ == "mcpg"@,
        watch matches Ok(s) && {
            &&& s.topic@ == topic@
            &&& group_id matches Some(text) ==> s.group_id@ == text@
            &&& group_id is None ==> s.group_id@ == "mcpg-resource-watcher"@
        },
        unread matches Err(WatchError::InvalidSpec { message }) && message@
            == "Kafka watch spec: "@ + cause@,
{
}

/// A spec says what its fields say.
pub proof fn law_specs_are_taken_as_they_are(spec: KafkaBackendSpec)
    ensures
        spec@.request_topic == spec.request_topic@,
        spec@.response_topic == spec.response_topic@,
        spec@.timeout_ms == spec.timeout_ms,
        spec@.max_response_bytes == spec.max_response_bytes,
        spec@.bootstrap_servers == opt_text(spec.bootstrap_servers),
        spec@.sasl_username == opt_text(spec.sasl_username),
        spec@.sasl_password == opt_text(spec.sasl_password),
        spec@.security_protocol == opt_text(spec.security_protocol),
        spec@.sasl_mechanism == opt_text(spec.sasl_mechanism),
{
}

} // verus!
