//! Per-caller credentials: what the host is asked for a call, and the client that
//! its answer leads to.
use serde_json::Value;
use std::sync::Arc;
use vstd::prelude::*;
use vstd::utf8::*;

use crate::client_registry::{
    bounded, bundle_of, cache_step, digests_distinct, drops_nothing, handed_out, holds_digest,
    is_entry_of, is_oldest, is_run, law_same_digest_same_client, lemma_bundle_of,
    lemma_valid_registry, only_added, only_used, request_op, spared_by, touched, BundleAnswer,
    BundleRequest, CacheOp, ClientRegistry, ClientRegistryConfig, EntryView,
};
use crate::connection::{ConnectionParams, ConnectionView};
use crate::credentials::{
    collect_cred_keys, collect_cred_uris, pairs_ascending, CredTokens, CredTokensView,
};
use crate::digest::{
    blake3_hash, bundle_bytes, bundle_digest, digest_credential_bundle, key_is, keys_distinct,
    law_bundle_bytes_injective, law_bundle_is_hashed_line_by_line,
    law_ordered_bundle_is_hashed_as_it_is, law_sort_ignores_listing_order, law_sort_is_stable,
    lemma_utf8_concat, lemma_with_unique_key, line_safe, plain_key, sort_by_key, with_key,
    CredDigest,
};
use crate::error::{
    transport_error, transport_message, BackendError, BackendErrorView, TransportStep,
};
use crate::message::BackendRequest;
use crate::profile::dedicated_connection;
use crate::snapshot::{
    lemma_texts_of, listed_secrets, member_items, no_members, object_members,
    resolution_snapshot, rotation_applies, rotation_secret_refs, snapshot_members, MembersView,
};
use crate::spec::{BackendSpecView, KafkaBackendSpec};
use crate::text::{
    copy_text, law_text_order_irreflexive, law_text_order_transitive, less_from, opt_text,
    pair_views, text_less, text_views, PairView,
};

verus! {

/// What the host is asked to resolve, and for which call.
pub struct CredentialQuery<I> {
    /// The id of the gateway's request.
    pub request_id: String,
    /// The id of the gateway's session.
    pub session_id: Option<String>,
    /// The binding that is called.
    pub backend_name: String,
    /// Who calls.
    pub identity: Option<Arc<I>>,
    /// The references to resolve, for the host to replace in place.
    pub snapshot: Value,
}

/// The snapshot of a binding: the reference of every token stands for itself, and
/// nothing else is in it.
pub open spec fn config_snapshot(tokens: CredTokensView) -> MembersView {
    Map::new(|u: Seq<char>| tokens.names_uri(u), |u: Seq<char>| Some(u))
}

/// What a [`CredentialQuery`] asks.
pub ghost struct QueryView<I> {
    /// See [`CredentialQuery::request_id`].
    pub request_id: Seq<char>,
    /// See [`CredentialQuery::session_id`].
    pub session_id: Option<Seq<char>>,
    /// See [`CredentialQuery::backend_name`].
    pub backend_name: Seq<char>,
    /// See [`CredentialQuery::identity`].
    pub identity: Option<Arc<I>>,
    /// The members of the snapshot, which is an object.
    pub snapshot: Option<MembersView>,
}

/// What a query asks, if there is one.
pub open spec fn query_view<I>(query: Option<CredentialQuery<I>>) -> Option<QueryView<I>> {
    match query {
        Some(q) => Some(
            QueryView {
                request_id: q.request_id@,
                session_id: opt_text(q.session_id),
                backend_name: q.backend_name@,
                identity: q.identity,
                snapshot: object_members(q.snapshot),
            },
        ),
        None => None,
    }
}

/// What the host is asked for a call, if anything: the references of the tokens, for the
/// caller with these ids and this identity.
pub open spec fn query_of<I>(
    tokens: CredTokensView,
    request_id: Seq<char>,
    session_id: Option<Seq<char>>,
    backend_name: Seq<char>,
    identity: Option<Arc<I>>,
) -> Option<QueryView<I>> {
    if tokens.all().len() == 0 {
        None
    } else {
        Some(
            QueryView {
                request_id,
                session_id,
                backend_name,
                identity,
                snapshot: Some(config_snapshot(tokens)),
            },
        )
    }
}

/// The query of a call. Without tokens there is nothing to ask. Of the request only
/// the ids and the caller's identity enter into it.
pub fn credential_query<I>(
    tokens: &CredTokens,
    request: &BackendRequest<I>,
    backend_name: &str,
) -> (query: Option<CredentialQuery<I>>)
    ensures
        query_view(query) == query_of(
            tokens@,
            request.request_id@,
            opt_text(request.session_id),
            backend_name@,
            request.identity,
        ),
{
    let uris = collect_cred_uris(tokens);
    let ghost views = text_views(uris@);
    if uris.len() == 0 {
        proof {
            if tokens@.all().len() > 0 {
                assert(tokens@.names_uri(tokens@.all()[0].uri));
                assert(views.contains(tokens@.all()[0].uri));
            }
        }
        return None;
    }
    proof {
        assert(views.contains(views[0]));
        assert(tokens@.names_uri(views[0]));
        assert(snapshot_members(views) =~= config_snapshot(tokens@));
    }
    Some(
        CredentialQuery {
            request_id: request.request_id.clone(),
            session_id: copy_text(&request.session_id),
            backend_name: backend_name.to_owned(),
            identity: match &request.identity {
                Some(identity) => Some(Arc::clone(identity)),
                None => None,
            },
            snapshot: resolution_snapshot(&uris),
        },
    )
}

/// The connection parameters of a call, each token replaced by what the host
/// resolved for it. A parameter that is not in the spec is `None`.
#[derive(Debug)]
pub struct ResolvedFields {
    /// The broker list.
    pub bootstrap_servers: Option<String>,
    /// The SASL username.
    pub sasl_username: Option<String>,
    /// The SASL password.
    pub sasl_password: Option<String>,
}

/// What [`ResolvedFields`] say, as text.
pub ghost struct ResolvedView {
    /// See [`ResolvedFields::bootstrap_servers`].
    pub bootstrap_servers: Option<Seq<char>>,
    /// See [`ResolvedFields::sasl_username`].
    pub sasl_username: Option<Seq<char>>,
    /// See [`ResolvedFields::sasl_password`].
    pub sasl_password: Option<Seq<char>>,
}

impl View for ResolvedFields {
    type V = ResolvedView;

    open spec fn view(&self) -> ResolvedView {
        ResolvedView {
            bootstrap_servers: opt_text(self.bootstrap_servers),
            sasl_username: opt_text(self.sasl_username),
            sasl_password: opt_text(self.sasl_password),
        }
    }
}

/// The broker list of a call, if there is one.
pub open spec fn call_brokers(spec: BackendSpecView, resolved: ResolvedView) -> Option<Seq<char>> {
    match resolved.bootstrap_servers {
        Some(brokers) => Some(brokers),
        None => spec.bootstrap_servers,
    }
}

/// `pairs` and, if there is a value for `key`, the pair of the two.
pub open spec fn with_pair(
    pairs: Seq<PairView>,
    key: Seq<char>,
    value: Option<Seq<char>>,
) -> Seq<PairView> {
    match value {
        Some(v) => pairs.push((key, v)),
        None => pairs,
    }
}

/// The credential bundle of a call: what its client is cached under.
pub open spec fn call_bundle(
    brokers: Seq<char>,
    username: Option<Seq<char>>,
    password: Option<Seq<char>>,
) -> Seq<PairView> {
    with_pair(
        with_pair(seq![("bootstrap_servers"@, brokers)], "sasl_username"@, username),
        "sasl_password"@,
        password,
    )
}

/// The client that a call with resolved credentials needs.
pub struct CredentialClient {
    /// What the client is cached under.
    pub digest: CredDigest,
    /// The keys under which it is revoked.
    pub cred_keys: Vec<(String, String)>,
    /// What it is built from.
    pub params: ConnectionParams,
}

/// `keys` are the keys of `tokens`: each once, in ascending order.
pub open spec fn are_keys_of(keys: Seq<PairView>, tokens: CredTokensView) -> bool {
    &&& pairs_ascending(keys)
    &&& forall|k: PairView| #[trigger] keys.contains(k) <==> tokens.names_key(k)
}

/// The parameters of the client of a call.
pub open spec fn call_connection(
    spec: BackendSpecView,
    group_id: Seq<char>,
    brokers: Seq<char>,
    resolved: ResolvedView,
) -> ConnectionView {
    ConnectionView {
        bootstrap_servers: brokers,
        group_id,
        sasl_username: resolved.sasl_username,
        sasl_password: resolved.sasl_password,
        security_protocol: spec.security_protocol,
        sasl_mechanism: spec.sasl_mechanism,
    }
}

/// What the client of a call is cached under and built from.
pub ghost struct ClientView {
    /// See [`CredentialClient::digest`].
    pub digest: Seq<u8>,
    /// See [`CredentialClient::params`].
    pub params: ConnectionView,
}

/// What the client of a call is cached under and built from, or why there is none.
pub open spec fn client_view(client: Result<CredentialClient, BackendError>) -> Result<
    ClientView,
    BackendErrorView,
> {
    match client {
        Ok(c) => Ok(ClientView { digest: c.digest@, params: c.params@ }),
        Err(e) => Err(e@),
    }
}

/// The client that a call with these resolved parameters needs, or why there is none: it
/// needs a broker list.
pub open spec fn client_of_call(
    spec: BackendSpecView,
    group_id: Seq<char>,
    resolved: ResolvedView,
) -> Result<ClientView, BackendErrorView> {
    match call_brokers(spec, resolved) {
        Some(brokers) => Ok(
            ClientView {
                digest: bundle_digest(
                    call_bundle(brokers, resolved.sasl_username, resolved.sasl_password),
                ),
                params: call_connection(spec, group_id, brokers, resolved),
            },
        ),
        None => Err(
            BackendErrorView::InvalidSpec(
                "Kafka binding with ${cred://…} in SASL fields also requires `bootstrap_servers` on the spec — the per-credential path needs an explicit broker list"@,
            ),
        ),
    }
}

/// The client that a call with these resolved parameters needs. It is cached under
/// the digest of the resolved parameters. Without a broker list there is none.
pub fn client_for_call(
    spec: &KafkaBackendSpec,
    tokens: &CredTokens,
    group_id: &str,
    resolved: ResolvedFields,
) -> (client: Result<CredentialClient, BackendError>)
    ensures
        client_view(client) == client_of_call(spec@, group_id@, resolved@),
        client matches Ok(c) ==> are_keys_of(pair_views(c.cred_keys@), tokens@),
{
    let brokers = match resolved.bootstrap_servers {
        Some(brokers) => Some(brokers),
        None => copy_text(&spec.bootstrap_servers),
    };
    let bootstrap_servers = match brokers {
        Some(brokers) => brokers,
        None => {
            return Err(
                BackendError::InvalidSpec {
                    message:
                        "Kafka binding with ${cred://…} in SASL fields also requires `bootstrap_servers` on the spec — the per-credential path needs an explicit broker list".to_owned(),
                },
            );
        },
    };
    let mut pairs: Vec<(String, String)> = Vec::new();
    pairs.push(("bootstrap_servers".to_owned(), bootstrap_servers.clone()));
    let ghost first = seq![("bootstrap_servers"@, bootstrap_servers@)];
    assert(pair_views(pairs@) =~= first);
    push_if_given(&mut pairs, "sasl_username", &resolved.sasl_username);
    push_if_given(&mut pairs, "sasl_password", &resolved.sasl_password);
    let digest = digest_credential_bundle(pairs.as_slice());
    Ok(
        CredentialClient {
            digest,
            cred_keys: collect_cred_keys(tokens),
            params: ConnectionParams {
                bootstrap_servers,
                group_id: group_id.to_owned(),
                sasl_username: resolved.sasl_username,
                sasl_password: resolved.sasl_password,
                security_protocol: copy_text(&spec.security_protocol),
                sasl_mechanism: copy_text(&spec.sasl_mechanism),
            },
        },
    )
}

/// Appends the pair of `key` and `value`, if there is a value.
fn push_if_given(pairs: &mut Vec<(String, String)>, key: &str, value: &Option<String>)
    ensures
        pair_views(final(pairs)@) == with_pair(pair_views(old(pairs)@), key@, opt_text(*value)),
{
    let ghost before = pair_views(pairs@);
    if let Some(v) = value {
        pairs.push((key.to_owned(), v.clone()));
        assert(pair_views(pairs@) =~= before.push((key@, v@)));
    }
}

/// Looks the client of a call up in the cache, and marks it as used at `now`.
pub fn find_client<T>(
    registry: &mut ClientRegistry<T>,
    client: &CredentialClient,
    now: u64,
) -> (found: Option<Arc<T>>)
    ensures
        final(registry).limits() == old(registry).limits(),
        digests_distinct(final(registry)@),
        cache_step(
            old(registry)@,
            request_op(old(registry)@, client.digest@, BundleRequest::<T>::Lookup, now),
            old(registry).limits().max_entries,
            final(registry)@,
        ),
        if holds_digest(old(registry)@, client.digest@) {
            &&& found == Some(bundle_of(old(registry)@, client.digest@))
            &&& final(registry)@ == touched(old(registry)@, client.digest@, now)
        } else {
            &&& found is None
            &&& final(registry)@ == old(registry)@
        },
{
    match registry.get_or_build(&client.digest, BundleRequest::Lookup, now) {
        BundleAnswer::Ready { bundle, .. } => Some(bundle),
        BundleAnswer::Build => None,
    }
}

/// The cache entry of a client that was built at `now`.
pub open spec fn client_entry<T>(
    client: CredentialClient,
    bundle: Arc<T>,
    now: u64,
) -> EntryView<T> {
    EntryView {
        digest: client.digest@,
        bundle,
        cred_keys: pair_views(client.cred_keys@),
        last_used: now,
    }
}

/// What [`adopt_client`] does to the cache.
pub open spec fn adopt_op<T>(
    entries: Seq<EntryView<T>>,
    client: CredentialClient,
    built: Result<Arc<T>, String>,
    now: u64,
) -> CacheOp<T> {
    match built {
        Err(_) => CacheOp::Keep,
        Ok(bundle) => if holds_digest(entries, client.digest@) {
            CacheOp::Use { digest: client.digest@, now }
        } else {
            CacheOp::Add { entry: client_entry(client, bundle, now) }
        },
    }
}

/// Caches a freshly built client and hands out the client of the call, with the
/// number of older clients that were dropped to make room. If another call has
/// cached a client under the same digest in the meantime, that one is handed out. If
/// no client could be built, the call fails and the cache stays as it is.
pub fn adopt_client<T>(
    registry: &mut ClientRegistry<T>,
    client: CredentialClient,
    built: Result<Arc<T>, String>,
    now: u64,
) -> (adopted: Result<(Arc<T>, usize), BackendError>)
    ensures
        final(registry).limits() == old(registry).limits(),
        digests_distinct(final(registry)@),
        cache_step(
            old(registry)@,
            adopt_op(old(registry)@, client, built, now),
            old(registry).limits().max_entries,
            final(registry)@,
        ),
        match built {
            Err(cause) => {
                &&& adopted matches Err(e) && e@ == BackendErrorView::Transport(
                    transport_message(TransportStep::CredentialClient, cause@),
                )
                &&& final(registry)@ == old(registry)@
            },
            Ok(bundle) => if holds_digest(old(registry)@, client.digest@) {
                &&& adopted == Ok::<_, BackendError>(
                    (bundle_of(old(registry)@, client.digest@), 0usize),
                )
                &&& final(registry)@ == touched(old(registry)@, client.digest@, now)
            } else {
                let grown = old(registry)@.push(client_entry(client, bundle, now));
                &&& adopted == Ok::<_, BackendError>(
                    (bundle, (grown.len() - final(registry)@.len()) as usize),
                )
                &&& bounded(grown, old(registry).limits().max_entries, final(registry)@)
            },
        },
{
    proof {
        use_type_invariant(&*registry);
        lemma_valid_registry(*registry);
    }
    match built {
        Err(cause) => Err(transport_error(&TransportStep::CredentialClient, &cause)),
        Ok(bundle) => {
            let request = BundleRequest::Built {
                bundle: Arc::clone(&bundle),
                cred_keys: client.cred_keys,
            };
            match registry.get_or_build(&client.digest, request, now) {
                BundleAnswer::Ready { bundle, evicted } => Ok((bundle, evicted)),
                BundleAnswer::Build => Ok((bundle, 0)),
            }
        },
    }
}

/// What the host reports to a binding that has subscribed to it.
#[derive(Debug)]
pub enum HostNotice {
    /// A credential was revoked.
    CredentialRevoked { plugin_id: String, target: String },
    /// A secret was rotated.
    SecretRotated { secret_ref: String },
}

/// What a notice does to the cache of a binding that depends on the secrets `secret_refs`.
pub open spec fn notice_op<T>(notice: HostNotice, secret_refs: Seq<Seq<char>>) -> CacheOp<T> {
    match notice {
        HostNotice::CredentialRevoked { plugin_id, target } => CacheOp::Drop {
            spared: spared_by(plugin_id@, target@),
        },
        HostNotice::SecretRotated { secret_ref } => if secret_refs.contains(secret_ref@) {
            CacheOp::Clear
        } else {
            CacheOp::Keep
        },
    }
}

/// The per-credential clients of one binding, and the secrets it depends on.
pub struct BindingClients<T> {
    /// The cached clients.
    pub registry: ClientRegistry<T>,
    /// The secrets.
    pub secret_refs: Vec<String>,
}

impl<T> BindingClients<T> {
    /// No clients yet; the secrets are the ones that the gateway lists in the binding spec.
    pub fn new(spec: &Value, config: ClientRegistryConfig) -> (clients: Self)
        ensures
            clients.registry@ == Seq::<EntryView<T>>::empty(),
            clients.registry.limits() == config,
            text_views(clients.secret_refs@) == listed_secrets(
                member_items(*spec, "__mcpg_secret_refs"@),
            ),
    {
        BindingClients {
            registry: ClientRegistry::new(config),
            secret_refs: rotation_secret_refs(spec),
        }
    }

    /// Answers a notice and returns how many clients were dropped. A revocation drops the
    /// clients that depend on the credential. A rotation drops every client if the binding
    /// depends on the secret, and none otherwise.
    pub fn on_notice(&mut self, notice: &HostNotice) -> (evicted: usize)
        ensures
            final(self).secret_refs == old(self).secret_refs,
            final(self).registry.limits() == old(self).registry.limits(),
            digests_distinct(final(self).registry@),
            cache_step(
                old(self).registry@,
                notice_op(*notice, text_views(old(self).secret_refs@)),
                old(self).registry.limits().max_entries,
                final(self).registry@,
            ),
            evicted == old(self).registry@.len() - final(self).registry@.len(),
            match notice {
                HostNotice::CredentialRevoked { plugin_id, target } => final(self).registry@ == old(
                    self,
                ).registry@.filter(spared_by(plugin_id@, target@)),
                HostNotice::SecretRotated { secret_ref } => final(self).registry@ == if text_views(
                    old(self).secret_refs@,
                ).contains(secret_ref@) {
                    Seq::<EntryView<T>>::empty()
                } else {
                    old(self).registry@
                },
            },
    {
        proof {
            use_type_invariant(&self.registry);
            lemma_valid_registry(self.registry);
        }
        match notice {
            HostNotice::CredentialRevoked { plugin_id, target } => self.registry.evict_for(
                plugin_id,
                target,
            ),
            HostNotice::SecretRotated { secret_ref } => {
                if rotation_applies(&self.secret_refs, secret_ref) {
                    self.registry.evict_for_secret(secret_ref)
                } else {
                    0
                }
            },
        }
    }
}

/// The host is asked for what the operator wrote and nothing else: every member of
/// the snapshot is the reference of a credential token in the connection parameters,
/// standing for itself, whatever a caller puts into its request; and the reference of
/// every such token is in it.
pub proof fn law_snapshot_is_config_origin(tokens: CredTokensView, member: Seq<char>)
    ensures
        config_snapshot(tokens).contains_key(member) ==> {
            &&& exists|i: int|
                0 <= i < tokens.all().len() && (#[trigger] tokens.all()[i]).uri == member
            &&& config_snapshot(tokens)[member] == Some(member)
        },
        forall|i: int|
            0 <= i < tokens.all().len() ==> config_snapshot(tokens).contains_key(
                (#[trigger] tokens.all()[i]).uri,
            ),
{
    assert forall|i: int| 0 <= i < tokens.all().len() implies config_snapshot(
        tokens,
    ).contains_key((#[trigger] tokens.all()[i]).uri) by {
        assert(tokens.names_uri(tokens.all()[i].uri));
    }
}

/// What a caller writes into a request has no part in the resolution of credentials: two
/// requests with the same ids and the same identity lead to the same query and, for a host
/// that answers a query as a function of it, to the same client or the same failure, whatever
/// their payloads, headers and idempotency hints.
pub proof fn law_caller_data_has_no_part<I>(
    a: BackendRequest<I>,
    b: BackendRequest<I>,
    spec: BackendSpecView,
    tokens: CredTokensView,
    group_id: Seq<char>,
    backend_name: Seq<char>,
    host: spec_fn(Option<QueryView<I>>) -> Result<ResolvedView, BackendErrorView>,
)
    requires
        a.request_id@ == b.request_id@,
        opt_text(a.session_id) == opt_text(b.session_id),
        a.identity == b.identity,
    ensures
        call_query(tokens, a, backend_name) == call_query(tokens, b, backend_name),
        client_by(spec, group_id, host(call_query(tokens, a, backend_name))) == client_by(
            spec,
            group_id,
            host(call_query(tokens, b, backend_name)),
        ),
{
}

/// What the host is asked for the call of `request`.
pub open spec fn call_query<I>(
    tokens: CredTokensView,
    request: BackendRequest<I>,
    backend_name: Seq<char>,
) -> Option<QueryView<I>> {
    query_of(
        tokens,
        request.request_id@,
        opt_text(request.session_id),
        backend_name,
        request.identity,
    )
}

/// The client of a call whose parameters were resolved, or could not be.
pub open spec fn client_by(
    spec: BackendSpecView,
    group_id: Seq<char>,
    resolved: Result<ResolvedView, BackendErrorView>,
) -> Result<ClientView, BackendErrorView> {
    match resolved {
        Ok(fields) => client_of_call(spec, group_id, fields),
        Err(e) => Err(e),
    }
}

/// Calls with the same resolved parameters share a client: once one has been handed out and
/// is cached, and as long as nothing is dropped, the next such call gets it and builds none.
pub proof fn law_same_credentials_share_a_client<T>(
    history: Seq<Seq<EntryView<T>>>,
    ops: Seq<CacheOp<T>>,
    max_entries: usize,
    spec: BackendSpecView,
    group_id: Seq<char>,
    first: ResolvedView,
    second: ResolvedView,
    bundle: Arc<T>,
    i: int,
    j: int,
    request: BundleRequest<T>,
    now: u64,
)
    requires
        is_run(history, ops, max_entries),
        digests_distinct(history[0]),
        0 <= i < j < history.len(),
        first == second,
        client_of_call(spec, group_id, first) matches Ok(c) && handed_out(history[i], ops[i])
            == Some((c.digest, bundle)) && holds_digest(history[i + 1], c.digest),
        forall|k: int|
            i < k < j ==> drops_nothing(history[k], #[trigger] ops[k], history[k + 1]),
    ensures
        client_of_call(spec, group_id, second) matches Ok(c) && {
            let op = request_op(history[j], c.digest, request, now);
            &&& op == (CacheOp::<T>::Use { digest: c.digest, now })
            &&& handed_out(history[j], op) == Some((c.digest, bundle))
        },
{
    let digest = client_of_call(spec, group_id, first)->Ok_0.digest;
    law_same_digest_same_client(
        history,
        ops,
        max_entries,
        digest,
        bundle,
        i,
        j,
        request,
        now,
    );
}

/// Callers with different resolved parameters never share a client. `made` says for which
/// digest a client was built; a client is built for one digest. Nothing is claimed where a
/// line feed stands in a parameter or where the two inputs are a collision of BLAKE3.
pub proof fn law_callers_do_not_share_clients<T>(
    made: spec_fn(Arc<T>, Seq<u8>) -> bool,
    brokers: Seq<char>,
    username: Option<Seq<char>>,
    password: Option<Seq<char>>,
    bundle: Arc<T>,
    other_brokers: Seq<char>,
    other_username: Option<Seq<char>>,
    other_password: Option<Seq<char>>,
    other_bundle: Arc<T>,
)
    requires
        forall|b: Arc<T>, d: Seq<u8>, e: Seq<u8>| #[trigger]
            made(b, d) && #[trigger] made(b, e) ==> d == e,
        bundle_on_lines(brokers, username, password),
        bundle_on_lines(other_brokers, other_username, other_password),
        made(bundle, bundle_digest(call_bundle(brokers, username, password))),
        made(
            other_bundle,
            bundle_digest(call_bundle(other_brokers, other_username, other_password)),
        ),
        ({
            let a = bundle_bytes(sort_by_key(call_bundle(brokers, username, password)));
            let b = bundle_bytes(
                sort_by_key(call_bundle(other_brokers, other_username, other_password)),
            );
            blake3_hash(a) == blake3_hash(b) ==> a == b
        }),
        brokers != other_brokers || username != other_username || password != other_password,
    ensures
        bundle != other_bundle,
{
    if bundle == other_bundle {
        law_credentials_are_told_apart(
            brokers,
            username,
            password,
            other_brokers,
            other_username,
            other_password,
        );
    }
}

/// Without a credential token nothing is resolved: the host is asked for nothing, and a
/// client of the binding's own is built from the spec's values as they are written. A bare
/// `cred://…` is such a value.
pub proof fn law_plain_values_travel_verbatim(
    spec: BackendSpecView,
    tokens: CredTokensView,
    shared: Seq<char>,
    group_id: Seq<char>,
)
    requires
        tokens.all().len() == 0,
    ensures
        config_snapshot(tokens) == no_members(),
        dedicated_connection(spec, tokens, shared, group_id) matches Some(own) ==> {
            &&& own.bootstrap_servers == match spec.bootstrap_servers {
                Some(brokers) => brokers,
                None => shared,
            }
            &&& own.sasl_username == spec.sasl_username
            &&& own.sasl_password == spec.sasl_password
            &&& own.security_protocol == spec.security_protocol
            &&& own.sasl_mechanism == spec.sasl_mechanism
        },
{
    assert(config_snapshot(tokens) =~= no_members());
}

/// Revoking the key of any credential token of a binding drops every client that the
/// binding's calls have cached.
pub proof fn law_revocation_reaches_clients<T>(
    entries: Seq<EntryView<T>>,
    tokens: CredTokensView,
    cached: EntryView<T>,
    revoked: PairView,
)
    requires
        are_keys_of(cached.cred_keys, tokens),
        tokens.names_key(revoked),
    ensures
        !entries.filter(spared_by(revoked.0, revoked.1)).contains(cached),
{
    let pred = spared_by::<T>(revoked.0, revoked.1);
    let left = entries.filter(pred);
    assert(cached.cred_keys.contains(revoked));
    assert(revoked == (revoked.0, revoked.1));
    if left.contains(cached) {
        let i = choose|i: int| 0 <= i < left.len() && left[i] == cached;
        entries.lemma_filter_pred(pred, i);
    }
}

/// No line feed stands in a value of a credential bundle.
pub open spec fn bundle_on_lines(
    brokers: Seq<char>,
    username: Option<Seq<char>>,
    password: Option<Seq<char>>,
) -> bool {
    &&& !brokers.contains('\n')
    &&& username matches Some(u) ==> !u.contains('\n')
    &&& password matches Some(p) ==> !p.contains('\n')
}

/// Callers with different resolved parameters have different bytes hashed for their
/// clients, where no line feed stands in a parameter.
pub proof fn law_credentials_are_told_apart(
    brokers: Seq<char>,
    username: Option<Seq<char>>,
    password: Option<Seq<char>>,
    other_brokers: Seq<char>,
    other_username: Option<Seq<char>>,
    other_password: Option<Seq<char>>,
)
    requires
        bundle_on_lines(brokers, username, password),
        bundle_on_lines(other_brokers, other_username, other_password),
        bundle_bytes(sort_by_key(call_bundle(brokers, username, password))) == bundle_bytes(
            sort_by_key(call_bundle(other_brokers, other_username, other_password)),
        ),
    ensures
        brokers == other_brokers,
        username == other_username,
        password == other_password,
{
    let a = call_bundle(brokers, username, password);
    let b = call_bundle(other_brokers, other_username, other_password);
    lemma_call_bundle(brokers, username, password);
    lemma_call_bundle(other_brokers, other_username, other_password);
    lemma_sorted_line_safe(a);
    lemma_sorted_line_safe(b);
    law_bundle_bytes_injective(sort_by_key(a), sort_by_key(b));
    law_sort_is_stable(a);
    law_sort_is_stable(b);
    let k0 = "bootstrap_servers"@;
    let k1 = "sasl_username"@;
    let k2 = "sasl_password"@;
    assert(with_key(sort_by_key(a), k0) == with_key(a, k0));
    assert(with_key(sort_by_key(b), k0) == with_key(b, k0));
    assert(with_key(sort_by_key(a), k1) == with_key(a, k1));
    assert(with_key(sort_by_key(b), k1) == with_key(b, k1));
    assert(with_key(sort_by_key(a), k2) == with_key(a, k2));
    assert(with_key(sort_by_key(b), k2) == with_key(b, k2));
    assert(with_key(a, k0)[0] == (k0, brokers));
    assert(with_key(b, k0)[0] == (k0, other_brokers));
    assert(username is Some ==> with_key(a, k1)[0] == (k1, username->0));
    assert(other_username is Some ==> with_key(b, k1)[0] == (k1, other_username->0));
    assert(password is Some ==> with_key(a, k2)[0] == (k2, password->0));
    assert(other_password is Some ==> with_key(b, k2)[0] == (k2, other_password->0));
}

/// What each key selects in a credential bundle.
proof fn lemma_call_bundle(
    brokers: Seq<char>,
    username: Option<Seq<char>>,
    password: Option<Seq<char>>,
)
    requires
        bundle_on_lines(brokers, username, password),
    ensures
        ({
            let bundle = call_bundle(brokers, username, password);
            let k0 = "bootstrap_servers"@;
            let k1 = "sasl_username"@;
            let k2 = "sasl_password"@;
            &&& line_safe(bundle)
            &&& with_key(bundle, k0) == seq![(k0, brokers)]
            &&& with_key(bundle, k1) == match username {
                Some(u) => seq![(k1, u)],
                None => seq![],
            }
            &&& with_key(bundle, k2) == match password {
                Some(p) => seq![(k2, p)],
                None => seq![],
            }
        }),
{
    let bundle = call_bundle(brokers, username, password);
    let k0 = "bootstrap_servers"@;
    let k1 = "sasl_username"@;
    let k2 = "sasl_password"@;
    reveal_strlit("bootstrap_servers");
    reveal_strlit("sasl_username");
    reveal_strlit("sasl_password");
    assert(k0[0] == 'b' && k1[0] == 's' && k2[0] == 's');
    assert(k1[5] == 'u' && k2[5] == 'p');
    assert(plain_key(k0));
    assert(plain_key(k1));
    assert(plain_key(k2));
    assert(keys_distinct(bundle));
    lemma_with_unique_key(bundle, k0);
    lemma_with_unique_key(bundle, k1);
    lemma_with_unique_key(bundle, k2);
    assert(bundle[0] == (k0, brokers));
    if let Some(u) = username {
        assert(bundle[1] == (k1, u));
    }
    if let Some(p) = password {
        assert(bundle[bundle.len() - 1] == (k2, p));
    }
    lemma_selected_key(bundle, k1);
    lemma_selected_key(bundle, k2);
    assert(username is None ==> with_key(bundle, k1) =~= seq![]);
    assert(password is None ==> with_key(bundle, k2) =~= seq![]);
}

/// A key selects only pairs that have it.
proof fn lemma_selected_key(pairs: Seq<PairView>, key: Seq<char>)
    ensures
        forall|i: int|
            0 <= i < with_key(pairs, key).len() ==> (#[trigger] with_key(pairs, key)[i]).0 == key,
{
    assert forall|i: int| 0 <= i < with_key(pairs, key).len() implies (#[trigger] with_key(
        pairs,
        key,
    )[i]).0 == key by {
        pairs.lemma_filter_pred(key_is(key), i);
    }
}

/// Sorting keeps a bundle safe to be written in lines.
proof fn lemma_sorted_line_safe(pairs: Seq<PairView>)
    requires
        line_safe(pairs),
    ensures
        line_safe(sort_by_key(pairs)),
{
    law_sort_is_stable(pairs);
    let sorted = sort_by_key(pairs);
    assert forall|i: int| 0 <= i < sorted.len() implies plain_key((#[trigger] sorted[i]).0)
        && !sorted[i].1.contains('\n') by {
        let p = sorted[i];
        let pred = key_is(p.0);
        assert(with_key(sorted, p.0) == with_key(pairs, p.0));
        sorted.lemma_filter_contains(pred, i);
        pairs.lemma_filter_contains_rev(pred, p);
        let k = choose|k: int| 0 <= k < pairs.len() && pairs[k] == p;
        assert(plain_key(pairs[k].0));
    }
}


/// The client of a call is built from what was resolved for the call. A resolved broker list is
/// taken as it is; only where there is none, that of the spec is. The login is the resolved one
/// and nothing else, group, protocol and mechanism are those of the binding. Without any broker
/// list there is no client.
pub proof fn law_client_is_built_from_the_resolved_values(
    spec: KafkaBackendSpec,
    tokens: CredTokens,
    group_id: &str,
    resolved: ResolvedFields,
    client: Result<CredentialClient, BackendError>,
)
    requires
        call_ensures(client_for_call, (&spec, &tokens, group_id, resolved), client),
    ensures
        client is Ok <==> resolved.bootstrap_servers is Some || spec.bootstrap_servers is Some,
        client matches Err(e) ==> (e matches BackendError::InvalidSpec { message } && message@
            == "Kafka binding with ${cred://…} in SASL fields also requires `bootstrap_servers` on the spec — the per-credential path needs an explicit broker list"@),
        client matches Ok(c) ==> {
            &&& resolved.bootstrap_servers matches Some(brokers) ==> c.params.bootstrap_servers@
                == brokers@
            &&& resolved.bootstrap_servers is None ==> (spec.bootstrap_servers matches Some(brokers)
                && c.params.bootstrap_servers@ == brokers@)
            &&& c.params.group_id@ == group_id@
            &&& opt_text(c.params.sasl_username) == opt_text(resolved.sasl_username)
            &&& opt_text(c.params.sasl_password) == opt_text(resolved.sasl_password)
            &&& opt_text(c.params.security_protocol) == opt_text(spec.security_protocol)
            &&& opt_text(c.params.sasl_mechanism) == opt_text(spec.sasl_mechanism)
        },
{
}

/// The line of a credential bundle for `key`, if there is a value for it.
pub open spec fn bundle_line(key: Seq<char>, value: Option<Seq<char>>) -> Seq<char> {
    match value {
        Some(text) => key + seq!['='] + text + seq!['\n'],
        None => Seq::empty(),
    }
}

/// The client of a call is cached under the hash of the very values it is built from: a line
/// for the broker list, one for the password and one for the username, as far as they were
/// resolved.
pub proof fn law_client_is_cached_under_what_it_is_built_from(
    spec: KafkaBackendSpec,
    tokens: CredTokens,
    group_id: &str,
    resolved: ResolvedFields,
    client: Result<CredentialClient, BackendError>,
)
    requires
        call_ensures(client_for_call, (&spec, &tokens, group_id, resolved), client),
    ensures
        client matches Ok(c) ==> {
            let brokers = match resolved.bootstrap_servers {
                Some(text) => text@,
                None => spec.bootstrap_servers->0@,
            };
            c.digest@ == blake3_hash(
                encode_utf8(
                    bundle_line("bootstrap_servers"@, Some(brokers)) + bundle_line(
                        "sasl_password"@,
                        opt_text(resolved.sasl_password),
                    ) + bundle_line("sasl_username"@, opt_text(resolved.sasl_username)),
                ),
            )
        },
{
    if let Ok(c) = client {
        let brokers = match resolved.bootstrap_servers {
            Some(text) => text@,
            None => spec.bootstrap_servers->0@,
        };
        lemma_bundle_digest_lines(
            brokers,
            opt_text(resolved.sasl_username),
            opt_text(resolved.sasl_password),
        );
    }
}

/// The digest of a credential bundle is the hash of its lines.
proof fn lemma_bundle_digest_lines(
    brokers: Seq<char>,
    username: Option<Seq<char>>,
    password: Option<Seq<char>>,
)
    ensures
        bundle_bytes(sort_by_key(call_bundle(brokers, username, password))) == encode_utf8(
            bundle_line("bootstrap_servers"@, Some(brokers)) + bundle_line(
                "sasl_password"@,
                password,
            ) + bundle_line("sasl_username"@, username),
        ),
{
    let k0 = "bootstrap_servers"@;
    let k1 = "sasl_password"@;
    let k2 = "sasl_username"@;
    reveal_strlit("bootstrap_servers");
    reveal_strlit("sasl_username");
    reveal_strlit("sasl_password");
    assert(k0.take(0) =~= k1.take(0));
    assert(k0.take(0) =~= k2.take(0));
    assert(less_from(k0, k1, 0));
    assert(less_from(k0, k2, 0));
    assert(k1.take(5) =~= k2.take(5));
    assert(less_from(k1, k2, 5));
    lemma_no_text_before_a_smaller(k0, k1);
    lemma_no_text_before_a_smaller(k0, k2);
    lemma_no_text_before_a_smaller(k1, k2);
    let x = seq![(k0, brokers)];
    let y = with_pair(Seq::empty(), k1, password);
    let z = with_pair(Seq::empty(), k2, username);
    let listed = call_bundle(brokers, username, password);
    let sorted = x + y + z;
    assert(k0 != k1 && k0 != k2 && k1 != k2) by {
        law_text_order_irreflexive(k0);
        law_text_order_irreflexive(k1);
    }
    assert(keys_distinct(listed));
    assert(keys_distinct(sorted));
    assert forall|p: PairView| #[trigger] listed.contains(p) <==> sorted.contains(p) by {
        assert(listed[0] == sorted[0]);
        if let Some(u) = username {
            assert(listed[1] == (k2, u));
            assert(sorted[sorted.len() - 1] == (k2, u));
        }
        if let Some(w) = password {
            assert(listed[listed.len() - 1] == (k1, w));
            assert(sorted[1] == (k1, w));
        }
    }
    law_sort_ignores_listing_order(listed, sorted);
    law_ordered_bundle_is_hashed_as_it_is(sorted);
    law_bundle_is_hashed_line_by_line(x, y, k0, brokers);
    law_bundle_is_hashed_line_by_line(x + y, z, k0, brokers);
    assert(encode_utf8(Seq::<char>::empty()) =~= Seq::<u8>::empty());
    if let Some(w) = password {
        assert(y =~= seq![(k1, w)]);
        law_bundle_is_hashed_line_by_line(x, y, k1, w);
    }
    if let Some(u) = username {
        assert(z =~= seq![(k2, u)]);
        law_bundle_is_hashed_line_by_line(x, y, k2, u);
    }
    lemma_utf8_concat(bundle_line(k0, Some(brokers)), bundle_line(k1, password));
    lemma_utf8_concat(
        bundle_line(k0, Some(brokers)) + bundle_line(k1, password),
        bundle_line(k2, username),
    );
}

/// Of two texts only one can come before the other.
proof fn lemma_no_text_before_a_smaller(a: Seq<char>, b: Seq<char>)
    requires
        text_less(a, b),
    ensures
        !text_less(b, a),
{
    if text_less(b, a) {
        law_text_order_transitive(a, b, a);
        law_text_order_irreflexive(a);
    }
}

/// Two calls whose resolved parameters differ are cached under hashes of different bytes, where
/// no line feed stands in a parameter: no call is handed a client that was built for the broker
/// list or the login of another, but for a collision of BLAKE3.
pub proof fn law_calls_are_told_apart_by_what_was_resolved(
    spec: KafkaBackendSpec,
    tokens: CredTokens,
    group_id: &str,
    resolved: ResolvedFields,
    client: Result<CredentialClient, BackendError>,
    other_resolved: ResolvedFields,
    other_client: Result<CredentialClient, BackendError>,
)
    requires
        call_ensures(client_for_call, (&spec, &tokens, group_id, resolved), client),
        call_ensures(client_for_call, (&spec, &tokens, group_id, other_resolved), other_client),
        resolved.bootstrap_servers matches Some(a) && other_resolved.bootstrap_servers matches Some(
            b,
        ) && {
            &&& bundle_on_lines(
                a@,
                opt_text(resolved.sasl_username),
                opt_text(resolved.sasl_password),
            )
            &&& bundle_on_lines(
                b@,
                opt_text(other_resolved.sasl_username),
                opt_text(other_resolved.sasl_password),
            )
            &&& {
                ||| a@ != b@
                ||| opt_text(resolved.sasl_username) != opt_text(other_resolved.sasl_username)
                ||| opt_text(resolved.sasl_password) != opt_text(other_resolved.sasl_password)
            }
        },
    ensures
        client matches Ok(c) && other_client matches Ok(d) && {
            let hashed = encode_utf8(
                bundle_line("bootstrap_servers"@, opt_text(resolved.bootstrap_servers))
                    + bundle_line("sasl_password"@, opt_text(resolved.sasl_password))
                    + bundle_line("sasl_username"@, opt_text(resolved.sasl_username)),
            );
            let other_hashed = encode_utf8(
                bundle_line("bootstrap_servers"@, opt_text(other_resolved.bootstrap_servers))
                    + bundle_line("sasl_password"@, opt_text(other_resolved.sasl_password))
                    + bundle_line("sasl_username"@, opt_text(other_resolved.sasl_username)),
            );
            &&& c.digest@ == blake3_hash(hashed)
            &&& d.digest@ == blake3_hash(other_hashed)
            &&& hashed != other_hashed
        },
{
    law_client_is_cached_under_what_it_is_built_from(spec, tokens, group_id, resolved, client);
    law_client_is_cached_under_what_it_is_built_from(
        spec,
        tokens,
        group_id,
        other_resolved,
        other_client,
    );
    let a = resolved@;
    let b = other_resolved@;
    lemma_bundle_digest_lines(a.bootstrap_servers->0, a.sasl_username, a.sasl_password);
    lemma_bundle_digest_lines(b.bootstrap_servers->0, b.sasl_username, b.sasl_password);
    let x = bundle_bytes(
        sort_by_key(call_bundle(a.bootstrap_servers->0, a.sasl_username, a.sasl_password)),
    );
    let y = bundle_bytes(
        sort_by_key(call_bundle(b.bootstrap_servers->0, b.sasl_username, b.sasl_password)),
    );
    if x == y {
        law_credentials_are_told_apart(
            a.bootstrap_servers->0,
            a.sasl_username,
            a.sasl_password,
            b.bootstrap_servers->0,
            b.sasl_username,
            b.sasl_password,
        );
    }
}

/// The client of a call is revoked under the keys of the binding's tokens and under no others.
pub proof fn law_client_is_revoked_under_the_keys_of_the_tokens(
    spec: KafkaBackendSpec,
    tokens: CredTokens,
    group_id: &str,
    resolved: ResolvedFields,
    client: Result<CredentialClient, BackendError>,
    key: PairView,
)
    requires
        call_ensures(client_for_call, (&spec, &tokens, group_id, resolved), client),
    ensures
        client matches Ok(c) ==> (tokens@.names_key(key) <==> exists|i: int|
            0 <= i < c.cred_keys@.len() && (#[trigger] c.cred_keys@[i]).0@ == key.0
                && c.cred_keys@[i].1@ == key.1),
{
    if let Ok(c) = client {
        let views = pair_views(c.cred_keys@);
        assert forall|i: int| 0 <= i < c.cred_keys@.len() implies views[i] == (
            (#[trigger] c.cred_keys@[i]).0@,
            c.cred_keys@[i].1@,
        ) by {}
        assert(views.contains(key) <==> tokens@.names_key(key));
        if views.contains(key) {
            let i = choose|i: int| 0 <= i < views.len() && views[i] == key;
            assert(c.cred_keys@[i].0@ == key.0);
        }
    }
}

/// The host is asked if and only if some connection parameter holds a token. It is asked in
/// the name of the call: with the ids and the identity of the request and the name of the
/// binding, for the references of the tokens, each standing for itself, and for nothing else.
pub proof fn law_host_is_asked_for_the_tokens<I>(
    tokens: CredTokens,
    request: BackendRequest<I>,
    backend_name: &str,
    query: Option<CredentialQuery<I>>,
    member: Seq<char>,
)
    requires
        call_ensures(credential_query, (&tokens, &request, backend_name), query),
    ensures
        query is None <==> tokens.bootstrap_servers@.len() == 0 && tokens.sasl_username@.len() == 0
            && tokens.sasl_password@.len() == 0,
        query matches Some(q) ==> {
            &&& q.request_id@ == request.request_id@
            &&& opt_text(q.session_id) == opt_text(request.session_id)
            &&& q.backend_name@ == backend_name@
            &&& q.identity == request.identity
            &&& object_members(q.snapshot) matches Some(members) && {
                &&& members.contains_key(member) <==> tokens@.names_uri(member)
                &&& members.contains_key(member) ==> members[member] == Some(member)
            }
        },
{
    assert(tokens@.all().len() == tokens.bootstrap_servers@.len() + tokens.sasl_username@.len()
        + tokens.sasl_password@.len());
}

/// The resolved parameters are taken as they are.
pub proof fn law_resolved_values_are_taken_as_they_are(resolved: ResolvedFields)
    ensures
        resolved@.bootstrap_servers == opt_text(resolved.bootstrap_servers),
        resolved@.sasl_username == opt_text(resolved.sasl_username),
        resolved@.sasl_password == opt_text(resolved.sasl_password),
{
}


/// The client of a call is found in the cache if and only if one is cached under its digest,
/// and then it is that one; a lookup changes nothing but the time of its last use.
pub proof fn law_call_finds_its_own_client<T>(
    registry: &mut ClientRegistry<T>,
    client: CredentialClient,
    now: u64,
    found: Option<Arc<T>>,
    i: int,
)
    requires
        call_ensures(find_client::<T>, (registry, &client, now), found),
        digests_distinct(old(registry)@),
    ensures
        0 <= i < old(registry)@.len() && old(registry)@[i].digest == client.digest@ ==> {
            &&& found == Some(old(registry)@[i].bundle)
            &&& only_used(old(registry)@, i, now, final(registry)@)
        },
        (forall|j: int|
            0 <= j < old(registry)@.len() ==> (#[trigger] old(registry)@[j]).digest
                != client.digest@) ==> found is None && final(registry)@ == old(registry)@,
        final(registry).limits() == old(registry).limits(),
{
    let before = registry@;
    if 0 <= i < before.len() && before[i].digest == client.digest@ {
        assert(is_entry_of(before, client.digest@, i));
        lemma_bundle_of(before, client.digest@, i);
    }
    if forall|j: int|
        0 <= j < before.len() ==> (#[trigger] before[j]).digest != client.digest@ {
        if holds_digest(before, client.digest@) {
            let j = choose|j: int| is_entry_of(before, client.digest@, j);
            assert(before[j].digest != client.digest@);
        }
    }
}

/// A client that was built for a call is cached under the call's digest and keys and handed
/// out, unless another one has been cached under the digest meanwhile: then that one is. A
/// client that could not be built fails the call and leaves the cache as it is.
pub proof fn law_built_client_is_adopted<T>(
    registry: &mut ClientRegistry<T>,
    client: CredentialClient,
    built: Result<Arc<T>, String>,
    now: u64,
    adopted: Result<(Arc<T>, usize), BackendError>,
    i: int,
)
    requires
        call_ensures(adopt_client::<T>, (registry, client, built, now), adopted),
        digests_distinct(old(registry)@),
        old(registry)@.len() <= old(registry).limits().max_entries,
    ensures
        built matches Err(cause) ==> {
            &&& adopted matches Err(BackendError::Transport { message }) && message@
                == "building per-credential Kafka client: "@ + cause@
            &&& final(registry)@ == old(registry)@
        },
        built is Ok && 0 <= i < old(registry)@.len() && old(registry)@[i].digest == client.digest@
            ==> {
            &&& adopted matches Ok(handed_out) && handed_out.0 == old(registry)@[i].bundle
                && handed_out.1 == 0
            &&& only_used(old(registry)@, i, now, final(registry)@)
        },
        (forall|j: int|
            0 <= j < old(registry)@.len() ==> (#[trigger] old(registry)@[j]).digest
                != client.digest@) ==> (built matches Ok(bundle) ==> {
            &&& adopted matches Ok(handed_out) && {
                &&& handed_out.0 == bundle
                &&& handed_out.1 == if old(registry)@.len() < old(registry).limits().max_entries {
                    0int
                } else {
                    1int
                }
            }
            &&& only_added(
                old(registry)@,
                (EntryView {
                    digest: client.digest@,
                    bundle,
                    cred_keys: pair_views(client.cred_keys@),
                    last_used: now,
                }),
                old(registry).limits().max_entries,
                final(registry)@,
            )
        }),
        final(registry).limits() == old(registry).limits(),
{
    let before = registry@;
    if 0 <= i < before.len() && before[i].digest == client.digest@ {
        assert(is_entry_of(before, client.digest@, i));
        lemma_bundle_of(before, client.digest@, i);
    }
    if forall|j: int|
        0 <= j < before.len() ==> (#[trigger] before[j]).digest != client.digest@ {
        if holds_digest(before, client.digest@) {
            let j = choose|j: int| is_entry_of(before, client.digest@, j);
            assert(before[j].digest != client.digest@);
        }
        if let Ok(bundle) = built {
            let after = final(registry)@;
            let grown = before.push(client_entry(client, bundle, now));
            if before.len() >= registry.limits().max_entries {
                let k = choose|k: int| is_oldest(grown, k) && after == #[trigger] grown.remove(k);
                assert(after == grown.remove(k));
                assert(after.len() == before.len());
            }
        }
    }
}

/// A revocation drops the clients that list the revoked key and no others. A rotation drops
/// every client if the binding depends on the secret, and none otherwise. Either way the
/// binding learns how many went.
pub proof fn law_notices_drop_what_they_concern<T>(
    clients: &mut BindingClients<T>,
    notice: HostNotice,
    evicted: usize,
)
    requires
        call_ensures(BindingClients::<T>::on_notice, (clients, &notice), evicted),
    ensures
        notice matches HostNotice::CredentialRevoked { plugin_id, target } ==> {
            final(clients).registry@ == old(clients).registry@.filter(
                |e: EntryView<T>| !e.cred_keys.contains((plugin_id@, target@)),
            )
        },
        notice matches HostNotice::SecretRotated { secret_ref } ==> {
            let refs = old(clients).secret_refs@;
            &&& (exists|i: int| 0 <= i < refs.len() && (#[trigger] refs[i])@ == secret_ref@)
                ==> final(clients).registry@.len() == 0
            &&& (forall|i: int| 0 <= i < refs.len() ==> (#[trigger] refs[i])@ != secret_ref@)
                ==> final(clients).registry@ == old(clients).registry@
        },
        evicted + final(clients).registry@.len() == old(clients).registry@.len(),
        final(clients).secret_refs == old(clients).secret_refs,
        final(clients).registry.limits() == old(clients).registry.limits(),
{
    match notice {
        HostNotice::CredentialRevoked { plugin_id, target } => {
            assert(spared_by::<T>(plugin_id@, target@) =~= (|e: EntryView<T>|
                !e.cred_keys.contains((plugin_id@, target@))));
        },
        HostNotice::SecretRotated { secret_ref } => {
            let refs = clients.secret_refs@;
            let views = text_views(refs);
            assert forall|i: int| 0 <= i < refs.len() implies (#[trigger] refs[i])@
                == views[i] by {}
            if views.contains(secret_ref@) {
                let i = choose|i: int| 0 <= i < views.len() && views[i] == secret_ref@;
                assert(refs[i]@ == secret_ref@);
            }
        },
    }
}


/// A binding begins without cached clients, under the bounds it is given, and depends on the
/// secrets that the gateway lists, as strings, under `__mcpg_secret_refs`.
pub proof fn law_binding_begins_without_clients<T>(
    spec: Value,
    config: ClientRegistryConfig,
    clients: BindingClients<T>,
    secret_ref: Seq<char>,
)
    requires
        call_ensures(BindingClients::<T>::new, (&spec, config), clients),
    ensures
        clients.registry@.len() == 0,
        clients.registry.limits() == config,
        text_views(clients.secret_refs@).contains(secret_ref) <==> (member_items(
            spec,
            "__mcpg_secret_refs"@,
        ) matches Some(items) && items.contains(Some(secret_ref))),
{
    if let Some(items) = member_items(spec, "__mcpg_secret_refs"@) {
        lemma_texts_of(items, secret_ref);
    }
}

} // verus!
