//! Connection parameters and the client settings they turn into.
use rdkafka::config::ClientConfig;
use vstd::prelude::*;

use crate::text::opt_text;

verus! {

/// The configuration of a client of the `rdkafka` crate.
#[verifier::external_type_specification]
#[verifier::external_body]
pub struct ExClientConfig(rdkafka::config::ClientConfig);

/// The parameters that have been set in a client configuration.
pub uninterp spec fn client_settings(config: rdkafka::config::ClientConfig) -> Map<
    Seq<char>,
    Seq<char>,
>;

/// No parameter is set.
pub open spec fn no_settings() -> Map<Seq<char>, Seq<char>> {
    Map::empty()
}

/// Calls `rdkafka::config::ClientConfig::new`: no parameter is set.
#[verifier::external_body]
fn new_client_config() -> (config: ClientConfig)
    ensures
        client_settings(config) == no_settings(),
{
    ClientConfig::new()
}

/// Calls `rdkafka::config::ClientConfig::set`: the parameter `key` takes `value`
/// in place of an earlier value, and no other parameter changes.
#[verifier::external_body]
fn set_parameter(config: &mut ClientConfig, key: &str, value: &str)
    ensures
        client_settings(*final(config)) == client_settings(*old(config)).insert(key@, value@),
{
    config.set(key, value);
}

/// What a producer and a consumer are built from.
#[derive(Debug)]
pub struct ConnectionParams {
    /// The broker list.
    pub bootstrap_servers: String,
    /// The consumer group.
    pub group_id: String,
    /// The SASL username.
    pub sasl_username: Option<String>,
    /// The SASL password.
    pub sasl_password: Option<String>,
    /// `security.protocol`.
    pub security_protocol: Option<String>,
    /// `sasl.mechanism`.
    pub sasl_mechanism: Option<String>,
}

/// What [`ConnectionParams`] say, as text.
pub ghost struct ConnectionView {
    /// See [`ConnectionParams::bootstrap_servers`].
    pub bootstrap_servers: Seq<char>,
    /// See [`ConnectionParams::group_id`].
    pub group_id: Seq<char>,
    /// See [`ConnectionParams::sasl_username`].
    pub sasl_username: Option<Seq<char>>,
    /// See [`ConnectionParams::sasl_password`].
    pub sasl_password: Option<Seq<char>>,
    /// See [`ConnectionParams::security_protocol`].
    pub security_protocol: Option<Seq<char>>,
    /// See [`ConnectionParams::sasl_mechanism`].
    pub sasl_mechanism: Option<Seq<char>>,
}

impl View for ConnectionParams {
    type V = ConnectionView;

    open spec fn view(&self) -> ConnectionView {
        ConnectionView {
            bootstrap_servers: self.bootstrap_servers@,
            group_id: self.group_id@,
            sasl_username: opt_text(self.sasl_username),
            sasl_password: opt_text(self.sasl_password),
            security_protocol: opt_text(self.security_protocol),
            sasl_mechanism: opt_text(self.sasl_mechanism),
        }
    }
}

/// `settings` with `key` set, if there is a value for it.
pub open spec fn with_setting(
    settings: Map<Seq<char>, Seq<char>>,
    key: Seq<char>,
    value: Option<Seq<char>>,
) -> Map<Seq<char>, Seq<char>> {
    match value {
        Some(v) => settings.insert(key, v),
        None => settings,
    }
}

/// `settings` with the security settings that `params` give.
pub open spec fn with_security(
    settings: Map<Seq<char>, Seq<char>>,
    params: ConnectionView,
) -> Map<Seq<char>, Seq<char>> {
    with_setting(
        with_setting(
            with_setting(
                with_setting(settings, "security.protocol"@, params.security_protocol),
                "sasl.mechanism"@,
                params.sasl_mechanism,
            ),
            "sasl.username"@,
            params.sasl_username,
        ),
        "sasl.password"@,
        params.sasl_password,
    )
}

/// The settings of a request producer.
pub open spec fn producer_settings(params: ConnectionView) -> Map<Seq<char>, Seq<char>> {
    with_security(
        no_settings().insert(
            "bootstrap.servers"@,
            params.bootstrap_servers,
        ).insert("message.timeout.ms"@, "5000"@),
        params,
    )
}

/// The settings of a reply consumer.
pub open spec fn consumer_settings(params: ConnectionView) -> Map<Seq<char>, Seq<char>> {
    with_security(watch_settings(params.bootstrap_servers, params.group_id), params)
}

/// The settings of a watch consumer: only new records count, and offsets are
/// committed without further bookkeeping.
pub open spec fn watch_settings(bootstrap_servers: Seq<char>, group_id: Seq<char>) -> Map<
    Seq<char>,
    Seq<char>,
> {
    no_settings().insert("bootstrap.servers"@, bootstrap_servers).insert(
        "group.id"@,
        group_id,
    ).insert("auto.offset.reset"@, "latest"@).insert("enable.auto.commit"@, "true"@)
}

/// Sets a parameter for which there may be a value.
fn set_if_given(config: &mut ClientConfig, key: &str, value: &Option<String>)
    ensures
        client_settings(*final(config)) == with_setting(
            client_settings(*old(config)),
            key@,
            opt_text(*value),
        ),
{
    if let Some(v) = value {
        set_parameter(config, key, v);
    }
}

/// Sets the security parameters that `params` give.
fn set_security(config: &mut ClientConfig, params: &ConnectionParams)
    ensures
        client_settings(*final(config)) == with_security(client_settings(*old(config)), params@),
{
    set_if_given(config, "security.protocol", &params.security_protocol);
    set_if_given(config, "sasl.mechanism", &params.sasl_mechanism);
    set_if_given(config, "sasl.username", &params.sasl_username);
    set_if_given(config, "sasl.password", &params.sasl_password);
}

/// The configuration of the producer that requests go out through.
pub fn producer_config(params: &ConnectionParams) -> (config: ClientConfig)
    ensures
        client_settings(config) == producer_settings(params@),
{
    let mut config = new_client_config();
    set_parameter(&mut config, "bootstrap.servers", &params.bootstrap_servers);
    set_parameter(&mut config, "message.timeout.ms", "5000");
    set_security(&mut config, params);
    config
}

/// The configuration of the consumer that replies come in through.
pub fn consumer_config(params: &ConnectionParams) -> (config: ClientConfig)
    ensures
        client_settings(config) == consumer_settings(params@),
{
    let mut config = watch_consumer_config(&params.bootstrap_servers, &params.group_id);
    set_security(&mut config, params);
    config
}

/// The configuration of the consumer that watches a topic.
pub fn watch_consumer_config(bootstrap_servers: &str, group_id: &str) -> (config: ClientConfig)
    ensures
        client_settings(config) == watch_settings(bootstrap_servers@, group_id@),
{
    let mut config = new_client_config();
    set_parameter(&mut config, "bootstrap.servers", bootstrap_servers);
    set_parameter(&mut config, "group.id", group_id);
    set_parameter(&mut config, "auto.offset.reset", "latest");
    set_parameter(&mut config, "enable.auto.commit", "true");
    config
}

/// The parameters this plugin sets, and `enable.idempotence`.
spec fn parameter_names() -> Seq<Seq<char>> {
    seq![
        "bootstrap.servers"@,
        "message.timeout.ms"@,
        "security.protocol"@,
        "sasl.mechanism"@,
        "sasl.username"@,
        "sasl.password"@,
        "group.id"@,
        "auto.offset.reset"@,
        "enable.auto.commit"@,
        "enable.idempotence"@,
    ]
}

/// The parameter names are pairwise different.
proof fn lemma_names_differ(i: int, j: int)
    requires
        0 <= i < j < parameter_names().len(),
    ensures
        parameter_names()[i] != parameter_names()[j],
{
    reveal_strlit("bootstrap.servers");
    reveal_strlit("message.timeout.ms");
    reveal_strlit("security.protocol");
    reveal_strlit("sasl.mechanism");
    reveal_strlit("sasl.username");
    reveal_strlit("sasl.password");
    reveal_strlit("group.id");
    reveal_strlit("auto.offset.reset");
    reveal_strlit("enable.auto.commit");
    reveal_strlit("enable.idempotence");
    let names = parameter_names();
    assert(names[0][0] == 'b');
    assert(names[1][0] == 'm');
    assert(names[2][1] == 'e');
    assert(names[3][5] == 'm');
    assert(names[4][5] == 'u');
    assert(names[5][5] == 'p');
    assert(names[6][0] == 'g');
    assert(names[7][0] == 'a');
    assert(names[8][7] == 'a');
    assert(names[9][7] == 'i');
}

/// The plugin never sets `enable.idempotence`: producer idempotence stays what the
/// operator's client configuration makes it.
pub proof fn law_producer_idempotence_untouched(params: ConnectionView)
    ensures
        !producer_settings(params).contains_key("enable.idempotence"@),
{
    assert forall|i: int| 0 <= i < 9 implies #[trigger] parameter_names()[i]
        != "enable.idempotence"@ by {
        lemma_names_differ(i, 9);
    }
    assert(parameter_names()[0] != "enable.idempotence"@);
    assert(parameter_names()[1] != "enable.idempotence"@);
    assert(parameter_names()[2] != "enable.idempotence"@);
    assert(parameter_names()[3] != "enable.idempotence"@);
    assert(parameter_names()[4] != "enable.idempotence"@);
    assert(parameter_names()[5] != "enable.idempotence"@);
}

/// The value that `settings` give to `key`, if any.
pub open spec fn setting(settings: Map<Seq<char>, Seq<char>>, key: Seq<char>) -> Option<Seq<char>> {
    if settings.contains_key(key) {
        Some(settings[key])
    } else {
        None
    }
}

/// Producer and consumer connect alike: to the same brokers, with exactly the
/// security settings that are given. A security setting that is not given is left
/// to the client library, so none is ever weakened.
pub proof fn law_both_clients_connect_alike(params: ConnectionView)
    ensures
        ({
            let p = producer_settings(params);
            let c = consumer_settings(params);
            &&& setting(p, "bootstrap.servers"@) == Some(params.bootstrap_servers)
            &&& setting(c, "bootstrap.servers"@) == Some(params.bootstrap_servers)
            &&& setting(c, "group.id"@) == Some(params.group_id)
            &&& setting(p, "security.protocol"@) == params.security_protocol
            &&& setting(c, "security.protocol"@) == params.security_protocol
            &&& setting(p, "sasl.mechanism"@) == params.sasl_mechanism
            &&& setting(c, "sasl.mechanism"@) == params.sasl_mechanism
            &&& setting(p, "sasl.username"@) == params.sasl_username
            &&& setting(c, "sasl.username"@) == params.sasl_username
            &&& setting(p, "sasl.password"@) == params.sasl_password
            &&& setting(c, "sasl.password"@) == params.sasl_password
        }),
{
    assert forall|i: int, j: int| 0 <= i < j < 10 implies #[trigger] parameter_names()[i]
        != #[trigger] parameter_names()[j] by {
        lemma_names_differ(i, j);
    }
    let names = parameter_names();
    assert(names[0] == "bootstrap.servers"@);
    assert(names[1] == "message.timeout.ms"@);
    assert(names[2] == "security.protocol"@);
    assert(names[3] == "sasl.mechanism"@);
    assert(names[4] == "sasl.username"@);
    assert(names[5] == "sasl.password"@);
    assert(names[6] == "group.id"@);
    assert(names[7] == "auto.offset.reset"@);
    assert(names[8] == "enable.auto.commit"@);
}

/// The settings of a producer, one by one: the brokers, the message timeout, the security
/// settings that are given, and no other.
pub proof fn law_producer_settings_one_by_one(
    params: ConnectionParams,
    config: ClientConfig,
    key: Seq<char>,
)
    requires
        call_ensures(producer_config, (&params,), config),
    ensures
        ({
            let s = client_settings(config);
            &&& s.contains_key("bootstrap.servers"@) && s["bootstrap.servers"@]
                == params.bootstrap_servers@
            &&& s.contains_key("message.timeout.ms"@) && s["message.timeout.ms"@] == "5000"@
            &&& gives_security(s, params)
            &&& s.contains_key(key) ==> key == "bootstrap.servers"@ || key
                == "message.timeout.ms"@ || is_security_key(key)
        }),
{
    lemma_distinct_names();
}

/// The settings of a reply consumer, one by one: those of a watch consumer in the given group
/// and the security settings that are given, and no other.
pub proof fn law_consumer_settings_one_by_one(
    params: ConnectionParams,
    config: ClientConfig,
    key: Seq<char>,
)
    requires
        call_ensures(consumer_config, (&params,), config),
    ensures
        ({
            let s = client_settings(config);
            &&& s.contains_key("bootstrap.servers"@) && s["bootstrap.servers"@]
                == params.bootstrap_servers@
            &&& s.contains_key("group.id"@) && s["group.id"@] == params.group_id@
            &&& s.contains_key("auto.offset.reset"@) && s["auto.offset.reset"@] == "latest"@
            &&& s.contains_key("enable.auto.commit"@) && s["enable.auto.commit"@] == "true"@
            &&& gives_security(s, params)
            &&& s.contains_key(key) ==> key == "bootstrap.servers"@ || key == "group.id"@ || key
                == "auto.offset.reset"@ || key == "enable.auto.commit"@ || is_security_key(key)
        }),
{
    lemma_distinct_names();
}

/// The settings of a watch consumer, one by one: brokers, group, only new records, offsets
/// committed by themselves, and no other.
pub proof fn law_watch_settings_one_by_one(
    bootstrap_servers: &str,
    group_id: &str,
    config: ClientConfig,
    key: Seq<char>,
)
    requires
        call_ensures(watch_consumer_config, (bootstrap_servers, group_id), config),
    ensures
        ({
            let s = client_settings(config);
            &&& s.contains_key("bootstrap.servers"@) && s["bootstrap.servers"@]
                == bootstrap_servers@
            &&& s.contains_key("group.id"@) && s["group.id"@] == group_id@
            &&& s.contains_key("auto.offset.reset"@) && s["auto.offset.reset"@] == "latest"@
            &&& s.contains_key("enable.auto.commit"@) && s["enable.auto.commit"@] == "true"@
            &&& s.contains_key(key) ==> key == "bootstrap.servers"@ || key == "group.id"@ || key
                == "auto.offset.reset"@ || key == "enable.auto.commit"@
        }),
{
    lemma_distinct_names();
}

/// The settings of a watch consumer, one by one.
pub(crate) proof fn lemma_watch_settings(
    bootstrap_servers: Seq<char>,
    group_id: Seq<char>,
    key: Seq<char>,
)
    ensures
        ({
            let s = watch_settings(bootstrap_servers, group_id);
            &&& s.contains_key("bootstrap.servers"@) && s["bootstrap.servers"@]
                == bootstrap_servers
            &&& s.contains_key("group.id"@) && s["group.id"@] == group_id
            &&& s.contains_key("auto.offset.reset"@) && s["auto.offset.reset"@] == "latest"@
            &&& s.contains_key("enable.auto.commit"@) && s["enable.auto.commit"@] == "true"@
            &&& s.contains_key(key) ==> key == "bootstrap.servers"@ || key == "group.id"@ || key
                == "auto.offset.reset"@ || key == "enable.auto.commit"@
        }),
{
    lemma_distinct_names();
}

/// `key` is one of the security settings.
pub open spec fn is_security_key(key: Seq<char>) -> bool {
    key == "security.protocol"@ || key == "sasl.mechanism"@ || key == "sasl.username"@ || key
        == "sasl.password"@
}

/// `settings` hold each security setting that `params` give, and none that they do not.
pub open spec fn gives_security(
    settings: Map<Seq<char>, Seq<char>>,
    params: ConnectionParams,
) -> bool {
    &&& settings.contains_key("security.protocol"@) <==> params.security_protocol is Some
    &&& params.security_protocol matches Some(v) ==> settings["security.protocol"@] == v@
    &&& settings.contains_key("sasl.mechanism"@) <==> params.sasl_mechanism is Some
    &&& params.sasl_mechanism matches Some(v) ==> settings["sasl.mechanism"@] == v@
    &&& settings.contains_key("sasl.username"@) <==> params.sasl_username is Some
    &&& params.sasl_username matches Some(v) ==> settings["sasl.username"@] == v@
    &&& settings.contains_key("sasl.password"@) <==> params.sasl_password is Some
    &&& params.sasl_password matches Some(v) ==> settings["sasl.password"@] == v@
}

/// The parameter names, and that they are pairwise different.
proof fn lemma_distinct_names()
    ensures
        ({
            let n = parameter_names();
            &&& n[0] == "bootstrap.servers"@ && n[1] == "message.timeout.ms"@
            &&& n[2] == "security.protocol"@ && n[3] == "sasl.mechanism"@
            &&& n[4] == "sasl.username"@ && n[5] == "sasl.password"@
            &&& n[6] == "group.id"@ && n[7] == "auto.offset.reset"@
            &&& n[8] == "enable.auto.commit"@ && n[9] == "enable.idempotence"@
            &&& forall|i: int, j: int| 0 <= i < j < 10 ==> #[trigger] n[i] != #[trigger] n[j]
        }),
{
    assert forall|i: int, j: int| 0 <= i < j < 10 implies #[trigger] parameter_names()[i]
        != #[trigger] parameter_names()[j] by {
        lemma_names_differ(i, j);
    }
}

} // verus!
