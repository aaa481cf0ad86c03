//! A registered binding: what a call of it needs, and the choice of its client.
use std::sync::Arc;
use vstd::prelude::*;

use crate::connection::{ConnectionParams, ConnectionView};
use crate::credentials::{spec_has_cred_refs, CredTokens, CredTokensView};
use crate::spec::{BackendSpecView, KafkaBackendSpec};
use crate::text::{copy_text, opt_text};

verus! {

/// A registered binding. `T` is the client pair; `H` is what the owner keeps alive
/// with the binding, such as its host and its subscriptions.
pub struct KafkaProfileRuntime<T, H> {
    /// The topic requests are produced to.
    pub request_topic: String,
    /// The topic replies are consumed from.
    pub response_topic: String,
    /// The budget of a call.
    pub timeout_ms: u64,
    /// The cap of a reply payload.
    pub max_response_bytes: usize,
    /// The spec of the binding, with its credential tokens in place.
    pub cfg: Arc<KafkaBackendSpec>,
    /// The credential tokens of the spec.
    pub tokens: CredTokens,
    /// Whether the spec carries a credential token, so that every call resolves a
    /// client of its own.
    pub has_cred_refs: bool,
    /// The client of a binding without credential tokens.
    pub static_bundle: Arc<T>,
    /// The consumer group of every client of the binding.
    pub group_id: String,
    /// What lives as long as the binding.
    pub handles: H,
}

impl<T, H> KafkaProfileRuntime<T, H> {
    /// The fields agree with the spec and its tokens.
    pub open spec fn consistent(self) -> bool {
        &&& self.request_topic@ == self.cfg@.request_topic
        &&& self.response_topic@ == self.cfg@.response_topic
        &&& self.timeout_ms == self.cfg@.timeout_ms
        &&& self.max_response_bytes == self.cfg@.max_response_bytes
        &&& self.has_cred_refs == (self.tokens@.all().len() > 0)
    }

    /// The binding of a spec.
    pub fn new(
        spec: KafkaBackendSpec,
        tokens: CredTokens,
        group_id: &str,
        static_bundle: Arc<T>,
        handles: H,
    ) -> (profile: Self)
        ensures
            profile.consistent(),
            *profile.cfg == spec,
            profile.tokens == tokens,
            profile.group_id@ == group_id@,
            profile.static_bundle == static_bundle,
            profile.handles == handles,
    {
        let has_cred_refs = spec_has_cred_refs(&tokens);
        KafkaProfileRuntime {
            request_topic: spec.request_topic.clone(),
            response_topic: spec.response_topic.clone(),
            timeout_ms: spec.timeout_ms,
            max_response_bytes: spec.max_response_bytes,
            cfg: Arc::new(spec),
            tokens,
            has_cred_refs,
            static_bundle,
            group_id: group_id.to_owned(),
            handles,
        }
    }

    /// The client of a call, unless credentials have to be resolved for it first.
    pub fn static_client(&self) -> (client: Option<Arc<T>>)
        ensures
            client == if self.has_cred_refs {
                None
            } else {
                Some(self.static_bundle)
            },
    {
        if self.has_cred_refs {
            None
        } else {
            Some(Arc::clone(&self.static_bundle))
        }
    }
}

/// Parameters without security settings.
pub open spec fn shared_connection(
    bootstrap_servers: Seq<char>,
    group_id: Seq<char>,
) -> ConnectionView {
    ConnectionView {
        bootstrap_servers,
        group_id,
        sasl_username: None,
        sasl_password: None,
        security_protocol: None,
        sasl_mechanism: None,
    }
}

/// The parameters of the client that bindings without overrides share.
pub fn shared_params(bootstrap_servers: &str, group_id: &str) -> (params: ConnectionParams)
    ensures
        params@ == shared_connection(bootstrap_servers@, group_id@),
{
    ConnectionParams {
        bootstrap_servers: bootstrap_servers.to_owned(),
        group_id: group_id.to_owned(),
        sasl_username: None,
        sasl_password: None,
        security_protocol: None,
        sasl_mechanism: None,
    }
}

/// The spec overrides some connection parameter.
pub open spec fn overrides_connection(spec: BackendSpecView) -> bool {
    ||| spec.bootstrap_servers is Some
    ||| spec.sasl_username is Some
    ||| spec.sasl_password is Some
    ||| spec.security_protocol is Some
    ||| spec.sasl_mechanism is Some
}

/// The parameters of the client that a binding gets for itself at registration:
/// one that overrides a connection parameter and carries no credential token. Any
/// other binding takes the shared client.
pub open spec fn dedicated_connection(
    spec: BackendSpecView,
    tokens: CredTokensView,
    shared: Seq<char>,
    group_id: Seq<char>,
) -> Option<ConnectionView> {
    if tokens.all().len() == 0 && overrides_connection(spec) {
        Some(
            ConnectionView {
                bootstrap_servers: match spec.bootstrap_servers {
                    Some(own) => own,
                    None => shared,
                },
                group_id,
                sasl_username: spec.sasl_username,
                sasl_password: spec.sasl_password,
                security_protocol: spec.security_protocol,
                sasl_mechanism: spec.sasl_mechanism,
            },
        )
    } else {
        None
    }
}

/// The parameters of the client that a binding gets for itself at registration, if
/// it does.
pub fn dedicated_params(
    spec: &KafkaBackendSpec,
    tokens: &CredTokens,
    shared: &str,
    group_id: &str,
) -> (params: Option<ConnectionParams>)
    ensures
        match params {
            Some(p) => dedicated_connection(spec@, tokens@, shared@, group_id@) == Some(p@),
            None => dedicated_connection(spec@, tokens@, shared@, group_id@) is None,
        },
{
    let overridden = spec.bootstrap_servers.is_some() || spec.sasl_username.is_some()
        || spec.sasl_password.is_some() || spec.security_protocol.is_some()
        || spec.sasl_mechanism.is_some();
    if spec_has_cred_refs(tokens) || !overridden {
        return None;
    }
    Some(
        ConnectionParams {
            bootstrap_servers: match &spec.bootstrap_servers {
                Some(own) => own.clone(),
                None => shared.to_owned(),
            },
            group_id: group_id.to_owned(),
            sasl_username: copy_text(&spec.sasl_username),
            sasl_password: copy_text(&spec.sasl_password),
            security_protocol: copy_text(&spec.security_protocol),
            sasl_mechanism: copy_text(&spec.sasl_mechanism),
        },
    )
}


/// A spec without credential tokens that gives any one of brokers, username, password, security
/// protocol and mechanism gets a client of its own, built from exactly what is given, with the
/// shared brokers where it gives none. Only one that gives none of the five takes the shared
/// client, and so does one with a token.
pub proof fn law_given_settings_get_a_client_of_their_own(
    spec: KafkaBackendSpec,
    tokens: CredTokens,
    shared: &str,
    group_id: &str,
    params: Option<ConnectionParams>,
)
    requires
        call_ensures(dedicated_params, (&spec, &tokens, shared, group_id), params),
    ensures
        params is Some <==> {
            &&& tokens.bootstrap_servers@.len() == 0
            &&& tokens.sasl_username@.len() == 0
            &&& tokens.sasl_password@.len() == 0
            &&& {
                ||| spec.bootstrap_servers is Some
                ||| spec.sasl_username is Some
                ||| spec.sasl_password is Some
                ||| spec.security_protocol is Some
                ||| spec.sasl_mechanism is Some
            }
        },
        params matches Some(own) ==> {
            &&& spec.bootstrap_servers matches Some(brokers) ==> own.bootstrap_servers@ == brokers@
            &&& spec.bootstrap_servers is None ==> own.bootstrap_servers@ == shared@
            &&& own.group_id@ == group_id@
            &&& own.sasl_username is Some <==> spec.sasl_username is Some
            &&& spec.sasl_username matches Some(text) ==> own.sasl_username->0@ == text@
            &&& own.sasl_password is Some <==> spec.sasl_password is Some
            &&& spec.sasl_password matches Some(text) ==> own.sasl_password->0@ == text@
            &&& own.security_protocol is Some <==> spec.security_protocol is Some
            &&& spec.security_protocol matches Some(text) ==> own.security_protocol->0@ == text@
            &&& own.sasl_mechanism is Some <==> spec.sasl_mechanism is Some
            &&& spec.sasl_mechanism matches Some(text) ==> own.sasl_mechanism->0@ == text@
        },
{
    assert(tokens@.all().len() == tokens.bootstrap_servers@.len() + tokens.sasl_username@.len()
        + tokens.sasl_password@.len());
}

/// Parameters are taken as they are.
pub proof fn law_parameters_are_taken_as_they_are(params: ConnectionParams)
    ensures
        params@.bootstrap_servers == params.bootstrap_servers@,
        params@.group_id == params.group_id@,
        params@.sasl_username == opt_text(params.sasl_username),
        params@.sasl_password == opt_text(params.sasl_password),
        params@.security_protocol == opt_text(params.security_protocol),
        params@.sasl_mechanism == opt_text(params.sasl_mechanism),
{
}

/// The shared client connects to the shared brokers in the shared group, without any security
/// setting.
pub proof fn law_shared_client_is_plain(
    bootstrap_servers: &str,
    group_id: &str,
    params: ConnectionParams,
)
    requires
        call_ensures(shared_params, (bootstrap_servers, group_id), params),
    ensures
        params.bootstrap_servers@ == bootstrap_servers@,
        params.group_id@ == group_id@,
        params.sasl_username is None,
        params.sasl_password is None,
        params.security_protocol is None,
        params.sasl_mechanism is None,
{
}

/// A binding is that of its spec, and its calls take its own client if and only if no
/// connection parameter carries a token.
pub proof fn law_binding_follows_its_spec<T, H>(
    spec: KafkaBackendSpec,
    tokens: CredTokens,
    group_id: &str,
    static_bundle: Arc<T>,
    handles: H,
    profile: KafkaProfileRuntime<T, H>,
    client: Option<Arc<T>>,
)
    requires
        call_ensures(
            KafkaProfileRuntime::<T, H>::new,
            (spec, tokens, group_id, static_bundle, handles),
            profile,
        ),
        call_ensures(KafkaProfileRuntime::<T, H>::static_client, (&profile,), client),
    ensures
        profile.request_topic@ == spec.request_topic@,
        profile.response_topic@ == spec.response_topic@,
        profile.timeout_ms == spec.timeout_ms,
        profile.max_response_bytes == spec.max_response_bytes,
        *profile.cfg == spec,
        profile.tokens == tokens,
        profile.group_id@ == group_id@,
        profile.handles == handles,
        client is None <==> tokens.bootstrap_servers@.len() > 0 || tokens.sasl_username@.len() > 0
            || tokens.sasl_password@.len() > 0,
        client matches Some(own) ==> own == static_bundle,
{
    assert(tokens@.all().len() == tokens.bootstrap_servers@.len() + tokens.sasl_username@.len()
        + tokens.sasl_password@.len());
}

} // verus!
