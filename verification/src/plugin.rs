//! The backend plugin of kind `kafka`: the client that bindings share and the
//! registered bindings.
use std::sync::Arc;
use vstd::prelude::*;

use crate::connection::{ConnectionParams, ConnectionView};
use crate::credentials::{CredTokens, CredTokensView};
use crate::error::{
    transport_error, transport_message, BackendError, BackendErrorView, TransportStep,
};
use crate::profile::{
    dedicated_connection, dedicated_params, shared_connection, shared_params, KafkaProfileRuntime,
};
use crate::resolution::{call_connection, ResolvedView};
use crate::spec::{
    is_plain_topic, law_accepted_values, spec_fault, validate_spec, values_fault, BackendSpecView,
    KafkaBackendSpec, KafkaPluginConfig,
};
use crate::text::{is_blank, occurs_in, opt_text, same_text};

verus! {

/// The registered bindings, by name.
pub type ProfilesView<T, H> = Map<Seq<char>, Arc<KafkaProfileRuntime<T, H>>>;

/// The backend plugin of kind `kafka`. `T` is the client pair; `H` is what the owner
/// keeps alive with a binding.
pub struct KafkaBackendPlugin<T, H> {
    shared_bootstrap_servers: String,
    group_id: String,
    shared_bundle: Option<Arc<T>>,
    profiles: Vec<(String, Arc<KafkaProfileRuntime<T, H>>)>,
}

/// No two bindings have the same name.
spec fn names_distinct<P>(profiles: Seq<(String, P)>) -> bool {
    forall|i: int, j: int|
        0 <= i < j < profiles.len() ==> (#[trigger] profiles[i]).0@ != (#[trigger] profiles[j]).0@
}

/// Binding `i` is the one named `name`.
spec fn is_named<P>(profiles: Seq<(String, P)>, name: Seq<char>, i: int) -> bool {
    0 <= i < profiles.len() && profiles[i].0@ == name
}

/// The bindings by name.
spec fn by_name<T, H>(
    profiles: Seq<(String, Arc<KafkaProfileRuntime<T, H>>)>,
) -> ProfilesView<T, H> {
    Map::new(
        |name: Seq<char>| exists|i: int| is_named(profiles, name, i),
        |name: Seq<char>| profiles[choose|i: int| is_named(profiles, name, i)].1,
    )
}

/// What comes of building a client: the client, or why it could not be built.
pub type Built<T> = Result<Arc<T>, String>;

/// What the owner does to get a client.
pub enum ClientStep<T> {
    /// Use this client.
    Ready(Arc<T>),
    /// Build a client from these parameters and come back with it.
    Build(ConnectionParams),
    /// Give up.
    Failed(BackendError),
}

/// What the owner does to get a client.
pub ghost enum ClientStepView<T> {
    /// See [`ClientStep::Ready`].
    Ready(Arc<T>),
    /// See [`ClientStep::Build`].
    Build(ConnectionView),
    /// See [`ClientStep::Failed`].
    Failed(BackendErrorView),
}

impl<T> View for ClientStep<T> {
    type V = ClientStepView<T>;

    open spec fn view(&self) -> ClientStepView<T> {
        match self {
            ClientStep::Ready(client) => ClientStepView::Ready(*client),
            ClientStep::Build(params) => ClientStepView::Build(params@),
            ClientStep::Failed(error) => ClientStepView::Failed(error@),
        }
    }
}

/// A binding to register.
pub struct ProfileDraft {
    /// Its name.
    pub backend_name: String,
    /// Its spec.
    pub spec: KafkaBackendSpec,
    /// The credential tokens of the spec.
    pub tokens: CredTokens,
}

impl ProfileDraft {
    /// What is wrong with the spec, if anything, where all bindings share the broker list
    /// `shared`.
    pub open spec fn fault(self, shared: Seq<char>) -> Option<Seq<char>> {
        binding_fault(self.backend_name@, self.spec@, self.tokens@, shared)
    }

    /// The parameters of the client that the binding gets for itself, if it does.
    pub open spec fn own_connection(self, shared: Seq<char>, group_id: Seq<char>) -> Option<
        ConnectionView,
    > {
        dedicated_connection(self.spec@, self.tokens@, shared, group_id)
    }
}

/// A binding without fault together with the client that
/// [`KafkaBackendPlugin::prepare_profile`] came to for it, under the broker list and the
/// consumer group of that plugin. Nothing else makes one.
pub struct PreparedProfile<T> {
    draft: ProfileDraft,
    client: Arc<T>,
    shared_bootstrap_servers: String,
    group_id: String,
}

impl<T> PreparedProfile<T> {
    #[verifier::type_invariant]
    spec fn valid(self) -> bool {
        self.draft.fault(self.shared_bootstrap_servers@) is None
    }

    /// The broker list it was prepared under.
    pub closed spec fn brokers(self) -> Seq<char> {
        self.shared_bootstrap_servers@
    }

    /// The consumer group it was prepared under.
    pub closed spec fn group(self) -> Seq<char> {
        self.group_id@
    }

    /// The binding.
    pub closed spec fn binding(self) -> ProfileDraft {
        self.draft
    }

    /// Its client.
    pub closed spec fn bundle(self) -> Arc<T> {
        self.client
    }

    /// The binding.
    pub fn draft(&self) -> (draft: &ProfileDraft)
        ensures
            *draft == self.binding(),
    {
        &self.draft
    }
}

/// What the owner does to get a binding registered.
pub enum ProfileStep<T> {
    /// Register it.
    Ready(PreparedProfile<T>),
    /// Build a client from these parameters and come back with it and the binding. `shared`
    /// tells whether it is the client that bindings share.
    Build { params: ConnectionParams, shared: bool, draft: ProfileDraft },
    /// Give up.
    Failed(BackendError),
}

impl<T> ProfileStep<T> {
    /// What the owner does to get the client of the binding.
    pub open spec fn client_step(self) -> ClientStepView<T> {
        match self {
            ProfileStep::Ready(prepared) => ClientStepView::Ready(prepared.bundle()),
            ProfileStep::Build { params, .. } => ClientStepView::Build(params@),
            ProfileStep::Failed(error) => ClientStepView::Failed(error@),
        }
    }

    /// The step is about `draft` under this broker list and this consumer group.
    pub open spec fn is_about(
        self,
        draft: ProfileDraft,
        brokers: Seq<char>,
        group_id: Seq<char>,
    ) -> bool {
        match self {
            ProfileStep::Ready(prepared) => {
                &&& prepared.binding() == draft
                &&& prepared.brokers() == brokers
                &&& prepared.group() == group_id
            },
            ProfileStep::Build { shared, draft: same, .. } => {
                &&& same == draft
                &&& shared == (draft.own_connection(brokers, group_id) is None)
            },
            ProfileStep::Failed(_) => true,
        }
    }
}

/// The step towards a client with these parameters, whose building may fail at `step`.
pub open spec fn building<T>(
    params: ConnectionView,
    built: Option<Built<T>>,
    step: TransportStep,
) -> ClientStepView<T> {
    match built {
        None => ClientStepView::Build(params),
        Some(Ok(client)) => ClientStepView::Ready(client),
        Some(Err(cause)) => ClientStepView::Failed(
            BackendErrorView::Transport(transport_message(step, cause@)),
        ),
    }
}

impl<T, H> KafkaBackendPlugin<T, H> {
    /// The broker list that all bindings share.
    pub closed spec fn brokers(self) -> Seq<char> {
        self.shared_bootstrap_servers@
    }

    /// The consumer group of every client.
    pub closed spec fn group(self) -> Seq<char> {
        self.group_id@
    }

    /// The shared client, once there is one.
    pub closed spec fn shared(self) -> Option<Arc<T>> {
        self.shared_bundle
    }

    /// The registered bindings.
    pub closed spec fn registered(self) -> ProfilesView<T, H> {
        by_name(self.profiles@)
    }

    /// The settings of the plugin stay as they are.
    pub open spec fn same_settings(self, other: Self) -> bool {
        self.brokers() == other.brokers() && self.group() == other.group()
    }

    #[verifier::type_invariant]
    spec fn valid(self) -> bool {
        &&& names_distinct(self.profiles@)
        &&& forall|i: int|
            0 <= i < self.profiles@.len() ==> is_valid_profile(
                *(#[trigger] self.profiles@[i]).1,
                self.group_id@,
            )
    }

    /// A plugin whose shared client has been built, or the reason why it could not be.
    pub fn new<E>(bootstrap_servers: &str, group_id: &str, built: Result<Arc<T>, E>) -> (plugin:
        Result<Self, E>)
        ensures
            match built {
                Ok(client) => plugin matches Ok(p) && {
                    &&& p.brokers() == bootstrap_servers@
                    &&& p.group() == group_id@
                    &&& p.shared() == Some(client)
                    &&& p.registered() == ProfilesView::<T, H>::empty()
                },
                Err(e) => plugin == Err::<Self, E>(e),
            },
    {
        let client = match built {
            Ok(client) => client,
            Err(e) => {
                return Err(e);
            },
        };
        let plugin = KafkaBackendPlugin {
            shared_bootstrap_servers: bootstrap_servers.to_owned(),
            group_id: group_id.to_owned(),
            shared_bundle: Some(client),
            profiles: Vec::new(),
        };
        assert(plugin.registered() =~= ProfilesView::<T, H>::empty());
        Ok(plugin)
    }

    /// A plugin whose shared client is built when it is first needed.
    pub fn from_config(config: KafkaPluginConfig) -> (plugin: Self)
        ensures
            plugin.brokers() == config.bootstrap_servers@,
            plugin.group() == config.group_id@,
            plugin.shared() is None,
            plugin.registered() == ProfilesView::<T, H>::empty(),
    {
        let plugin = KafkaBackendPlugin {
            shared_bootstrap_servers: config.bootstrap_servers,
            group_id: config.group_id,
            shared_bundle: None,
            profiles: Vec::new(),
        };
        assert(plugin.registered() =~= ProfilesView::<T, H>::empty());
        plugin
    }

    /// The kind of binding that this plugin serves.
    pub fn kind(&self) -> (kind: &'static str)
        ensures
            kind@ == "kafka"@,
    {
        "kafka"
    }

    /// The broker list that all bindings share.
    pub fn shared_bootstrap_servers(&self) -> (brokers: &str)
        ensures
            brokers@ == self.brokers(),
    {
        &self.shared_bootstrap_servers
    }

    /// The consumer group of every client.
    pub fn group_id(&self) -> (group_id: &str)
        ensures
            group_id@ == self.group(),
    {
        &self.group_id
    }

    /// Takes one step towards the client that bindings without overrides share. It is
    /// built at most once: a client that is there is handed out, and a failure to build
    /// one is not remembered. `built` is what came of building one, if that was tried.
    pub fn shared_bundle(&mut self, built: Option<Built<T>>) -> (step: ClientStep<T>)
        ensures
            final(self).same_settings(*old(self)),
            final(self).registered() == old(self).registered(),
            shared_step(
                old(self).brokers(),
                old(self).group(),
                old(self).shared(),
                built,
                step@,
                final(self).shared(),
            ),
    {
        proof {
            use_type_invariant(&*self);
        }
        if let Some(client) = &self.shared_bundle {
            return ClientStep::Ready(Arc::clone(client));
        }
        match built {
            None => ClientStep::Build(
                shared_params(&self.shared_bootstrap_servers, &self.group_id),
            ),
            Some(Ok(client)) => {
                self.shared_bundle = Some(Arc::clone(&client));
                ClientStep::Ready(client)
            },
            Some(Err(cause)) => ClientStep::Failed(
                transport_error(&TransportStep::SharedClient, &cause),
            ),
        }
    }

    /// Checks a binding and takes one step towards the client that it is registered with. A
    /// spec without credential tokens that overrides a connection parameter gets a client of
    /// its own; any other takes the shared one. `built` is what came of building a client, if
    /// that was tried.
    pub fn prepare_profile(&mut self, draft: ProfileDraft, built: Option<Built<T>>) -> (step:
        ProfileStep<T>)
        ensures
            final(self).same_settings(*old(self)),
            final(self).registered() == old(self).registered(),
            step.is_about(draft, old(self).brokers(), old(self).group()),
            match draft.fault(old(self).brokers()) {
                Some(message) => {
                    &&& step.client_step() == ClientStepView::<T>::Failed(
                        BackendErrorView::InvalidSpec(message),
                    )
                    &&& final(self).shared() == old(self).shared()
                },
                None => match draft.own_connection(old(self).brokers(), old(self).group()) {
                    Some(params) => {
                        &&& step.client_step() == building(
                            params,
                            built,
                            TransportStep::BindingClient,
                        )
                        &&& final(self).shared() == old(self).shared()
                    },
                    None => shared_step(
                        old(self).brokers(),
                        old(self).group(),
                        old(self).shared(),
                        built,
                        step.client_step(),
                        final(self).shared(),
                    ),
                },
            },
    {
        match validate_spec(
            &draft.backend_name,
            &draft.spec,
            draft.tokens.bootstrap_servers.len() > 0,
            &self.shared_bootstrap_servers,
        ) {
            Ok(_) => {},
            Err(error) => {
                return ProfileStep::Failed(error);
            },
        }
        match dedicated_params(
            &draft.spec,
            &draft.tokens,
            &self.shared_bootstrap_servers,
            &self.group_id,
        ) {
            Some(params) => match built {
                None => ProfileStep::Build { params, shared: false, draft },
                Some(Ok(client)) => ProfileStep::Ready(self.prepared(draft, client)),
                Some(Err(cause)) => ProfileStep::Failed(
                    transport_error(&TransportStep::BindingClient, &cause),
                ),
            },
            None => match self.shared_bundle(built) {
                ClientStep::Ready(client) => ProfileStep::Ready(self.prepared(draft, client)),
                ClientStep::Build(params) => ProfileStep::Build { params, shared: true, draft },
                ClientStep::Failed(error) => ProfileStep::Failed(error),
            },
        }
    }

    /// A binding without fault together with its client.
    fn prepared(&self, draft: ProfileDraft, client: Arc<T>) -> (prepared: PreparedProfile<T>)
        requires
            draft.fault(self.brokers()) is None,
        ensures
            prepared.binding() == draft,
            prepared.bundle() == client,
            prepared.brokers() == self.brokers(),
            prepared.group() == self.group(),
    {
        PreparedProfile {
            draft,
            client,
            shared_bootstrap_servers: self.shared_bootstrap_servers.clone(),
            group_id: self.group_id.clone(),
        }
    }

    /// The index of the binding named `backend_name`.
    fn find(&self, backend_name: &str) -> (found: Option<usize>)
        ensures
            match found {
                Some(i) => is_named(self.profiles@, backend_name@, i as int),
                None => forall|i: int| !is_named(self.profiles@, backend_name@, i),
            },
    {
        let mut i: usize = 0;
        while i < self.profiles.len()
            invariant
                i <= self.profiles.len(),
                forall|j: int| 0 <= j < i ==> !is_named(self.profiles@, backend_name@, j),
            decreases self.profiles.len() - i,
        {
            if same_text(&self.profiles[i].0, backend_name) {
                return Some(i);
            }
            i += 1;
        }
        None
    }

    /// Registers a prepared binding, in place of an earlier one of the same name. A call that
    /// is under way keeps the binding it began with. A binding without a client of its own
    /// gets the one client that all such bindings share. What a plugin with another broker
    /// list or another consumer group has prepared is handed back and changes nothing.
    pub fn register_profile(&mut self, prepared: PreparedProfile<T>, handles: H) -> (result: Result<
        (),
        PreparedProfile<T>,
    >)
        ensures
            final(self).same_settings(*old(self)),
            if prepared.brokers() != old(self).brokers() || prepared.group() != old(self).group() {
                &&& result == Err::<(), _>(prepared)
                &&& final(self).registered() == old(self).registered()
                &&& final(self).shared() == old(self).shared()
            } else {
                let name = prepared.binding().backend_name@;
                let profile = final(self).registered()[name];
                &&& result is Ok
                &&& prepared.binding().fault(old(self).brokers()) is None
                &&& final(self).registered() == old(self).registered().insert(name, profile)
                &&& is_valid_profile(*profile, old(self).group())
                &&& *profile.cfg == prepared.binding().spec
                &&& profile.tokens == prepared.binding().tokens
                &&& profile.handles == handles
                &&& match prepared.binding().own_connection(
                    old(self).brokers(),
                    old(self).group(),
                ) {
                    Some(_) => {
                        &&& profile.static_bundle == prepared.bundle()
                        &&& final(self).shared() == old(self).shared()
                    },
                    None => {
                        &&& final(self).shared() == Some(profile.static_bundle)
                        &&& old(self).shared() is Some ==> final(self).shared() == old(
                            self,
                        ).shared()
                        &&& old(self).shared() is None ==> profile.static_bundle
                            == prepared.bundle()
                    },
                }
            },
    {
        proof {
            use_type_invariant(&*self);
            use_type_invariant(&prepared);
        }
        if !same_text(&prepared.shared_bootstrap_servers, &self.shared_bootstrap_servers)
            || !same_text(&prepared.group_id, &self.group_id) {
            return Err(prepared);
        }
        let PreparedProfile { draft, client, .. } = prepared;
        let own = dedicated_params(
            &draft.spec,
            &draft.tokens,
            &self.shared_bootstrap_servers,
            &self.group_id,
        );
        let mut static_bundle = client;
        if own.is_none() {
            match &self.shared_bundle {
                Some(shared) => {
                    static_bundle = Arc::clone(shared);
                },
                None => {
                    self.shared_bundle = Some(Arc::clone(&static_bundle));
                },
            }
        }
        let found = self.find(&draft.backend_name);
        let ProfileDraft { backend_name, spec, tokens } = draft;
        let profile = Arc::new(
            KafkaProfileRuntime::new(spec, tokens, &self.group_id, static_bundle, handles),
        );
        let ghost before = self.profiles@;
        let mut profiles: Vec<(String, Arc<KafkaProfileRuntime<T, H>>)> = Vec::new();
        std::mem::swap(&mut profiles, &mut self.profiles);
        match found {
            Some(i) => {
                let _replaced = profiles.remove(i);
                profiles.insert(i, (backend_name, profile));
                assert(profiles@ =~= before.update(i as int, profiles@[i as int]));
                proof {
                    lemma_replaced(before, profiles@, i as int);
                }
            },
            None => {
                profiles.push((backend_name, profile));
                proof {
                    lemma_added(before, profiles@);
                }
            },
        }
        self.profiles = profiles;
        Ok(())
    }

    /// The binding that a call goes to.
    pub fn profile(&self, backend_name: &str) -> (found: Result<
        Arc<KafkaProfileRuntime<T, H>>,
        BackendError,
    >)
        ensures
            if self.registered().contains_key(backend_name@) {
                found matches Ok(profile) && {
                    &&& profile == self.registered()[backend_name@]
                    &&& is_valid_profile(*profile, self.group())
                }
            } else {
                found matches Err(e) && e@ == BackendErrorView::ProfileNotFound(backend_name@)
            },
    {
        proof {
            use_type_invariant(self);
        }
        match self.find(backend_name) {
            Some(i) => {
                assert(self.registered().contains_key(backend_name@));
                assert(self.profiles@[i as int].1 == self.registered()[backend_name@]) by {
                    let j = choose|j: int| is_named(self.profiles@, backend_name@, j);
                    assert(is_named(self.profiles@, backend_name@, i as int));
                    assert(i == j);
                }
                Ok(Arc::clone(&self.profiles[i].1))
            },
            None => Err(BackendError::ProfileNotFound { backend_name: backend_name.to_owned() }),
        }
    }
}

/// Replacing a binding by one of the same name.
proof fn lemma_replaced<T, H>(
    before: Seq<(String, Arc<KafkaProfileRuntime<T, H>>)>,
    after: Seq<(String, Arc<KafkaProfileRuntime<T, H>>)>,
    i: int,
)
    requires
        names_distinct(before),
        0 <= i < before.len(),
        after == before.update(i, after[i]),
        after[i].0@ == before[i].0@,
    ensures
        names_distinct(after),
        by_name(after) == by_name(before).insert(after[i].0@, after[i].1),
        by_name(after)[after[i].0@] == after[i].1,
{
    let name = after[i].0@;
    assert(is_named(after, name, i));
    assert(forall|n: Seq<char>, j: int| is_named(after, n, j) <==> is_named(before, n, j));
    let a = by_name(after);
    let b = by_name(before).insert(name, after[i].1);
    assert forall|n: Seq<char>| a.contains_key(n) <==> b.contains_key(n) by {
        if a.contains_key(n) {
            let j = choose|j: int| is_named(after, n, j);
            assert(is_named(before, n, j));
        }
        if by_name(before).contains_key(n) {
            let j = choose|j: int| is_named(before, n, j);
            assert(is_named(after, n, j));
        }
    }
    assert forall|n: Seq<char>| #[trigger] a.contains_key(n) implies a[n] == b[n] by {
        let j = choose|j: int| is_named(after, n, j);
        assert(is_named(before, n, j));
        let k = choose|k: int| is_named(before, n, k);
        assert(j == k);
        if n == name {
            assert(j == i);
        }
    }
    assert(a =~= b);
}

/// Adding a binding of a new name.
proof fn lemma_added<T, H>(
    before: Seq<(String, Arc<KafkaProfileRuntime<T, H>>)>,
    after: Seq<(String, Arc<KafkaProfileRuntime<T, H>>)>,
)
    requires
        names_distinct(before),
        after.len() > 0,
        after == before.push(after.last()),
        forall|i: int| !is_named(before, after.last().0@, i),
    ensures
        names_distinct(after),
        by_name(after) == by_name(before).insert(after.last().0@, after.last().1),
        by_name(after)[after.last().0@] == after.last().1,
{
    let m = before.len() as int;
    let name = after.last().0@;
    assert(is_named(after, name, m));
    assert forall|i: int| 0 <= i < m implies (#[trigger] before[i]).0@ != name by {
        assert(!is_named(before, name, i));
    }
    let a = by_name(after);
    let b = by_name(before).insert(name, after.last().1);
    assert forall|n: Seq<char>| a.contains_key(n) <==> b.contains_key(n) by {
        if a.contains_key(n) && n != name {
            let j = choose|j: int| is_named(after, n, j);
            assert(is_named(before, n, j));
        }
        if by_name(before).contains_key(n) {
            let j = choose|j: int| is_named(before, n, j);
            assert(is_named(after, n, j));
        }
    }
    assert forall|n: Seq<char>| #[trigger] a.contains_key(n) implies a[n] == b[n] by {
        let j = choose|j: int| is_named(after, n, j);
        if n == name {
            assert(j == m);
        } else {
            assert(is_named(before, n, j));
            let k = choose|k: int| is_named(before, n, k);
            assert(j == k);
        }
    }
    assert(a =~= b);
}

/// The step towards the shared client that is due when `cached` is there and `built`
/// is what came of building one; `after` is what is there after it.
pub open spec fn shared_step<T>(
    brokers: Seq<char>,
    group_id: Seq<char>,
    cached: Option<Arc<T>>,
    built: Option<Built<T>>,
    step: ClientStepView<T>,
    after: Option<Arc<T>>,
) -> bool {
    match cached {
        Some(client) => step == ClientStepView::Ready(client) && after == cached,
        None => {
            &&& step == building(
                shared_connection(brokers, group_id),
                built,
                TransportStep::SharedClient,
            )
            &&& after == match step {
                ClientStepView::Ready(client) => Some(client),
                _ => None,
            }
        },
    }
}

/// What is wrong with the spec of a binding, if anything, where all bindings share the
/// broker list `shared`.
pub open spec fn binding_fault(
    backend_name: Seq<char>,
    spec: BackendSpecView,
    tokens: CredTokensView,
    shared: Seq<char>,
) -> Option<Seq<char>> {
    spec_fault(backend_name, spec, tokens.bootstrap_servers.len() > 0, shared)
}

/// A binding that could be registered: its fields agree with its spec, its spec is
/// sound, and its clients join the group `group_id`.
pub open spec fn is_valid_profile<T, H>(
    profile: KafkaProfileRuntime<T, H>,
    group_id: Seq<char>,
) -> bool {
    &&& profile.consistent()
    &&& values_fault(profile.cfg@) is None
    &&& profile.group_id@ == group_id
}

/// The topics of a registered binding are plain, bounded names, its budget and cap are not
/// zero, and its calls resolve a client of their own if and only if its spec carries a
/// credential token.
pub proof fn law_registered_bindings_are_sound<T, H>(
    profile: KafkaProfileRuntime<T, H>,
    group_id: Seq<char>,
)
    requires
        is_valid_profile(profile, group_id),
    ensures
        is_plain_topic(profile.request_topic@),
        is_plain_topic(profile.response_topic@),
        profile.timeout_ms > 0,
        profile.max_response_bytes > 0,
        profile.has_cred_refs <==> profile.tokens@.all().len() > 0,
{
    law_accepted_values(profile.cfg@);
}

/// Every client joins the plugin's consumer group: the shared one, one of a binding's own,
/// and one of a caller's resolved credentials.
pub proof fn law_one_consumer_group<T, H>(
    profile: KafkaProfileRuntime<T, H>,
    shared: Seq<char>,
    group_id: Seq<char>,
    brokers: Seq<char>,
    resolved: ResolvedView,
)
    requires
        is_valid_profile(profile, group_id),
    ensures
        shared_connection(shared, group_id).group_id == group_id,
        dedicated_connection(profile.cfg@, profile.tokens@, shared, group_id) matches Some(own)
            ==> own.group_id == group_id,
        call_connection(profile.cfg@, profile.group_id@, brokers, resolved).group_id == group_id,
{
}

/// Bindings share their brokers: where the plugin has a broker list, the client of a
/// binding without credential tokens connects to it, whether it is the shared client or
/// one of the binding's own.
pub proof fn law_bindings_share_brokers(
    backend_name: Seq<char>,
    spec: BackendSpecView,
    tokens: CredTokensView,
    shared: Seq<char>,
    group_id: Seq<char>,
)
    requires
        binding_fault(backend_name, spec, tokens, shared) is None,
        tokens.all().len() == 0,
        shared.len() > 0,
    ensures
        shared_connection(shared, group_id).bootstrap_servers == shared,
        dedicated_connection(spec, tokens, shared, group_id) matches Some(own)
            ==> own.bootstrap_servers == shared,
{
    assert(tokens.bootstrap_servers.len() == 0);
}


/// The shared client is built once, from the plugin's brokers and group and nothing else. One
/// that is there is handed out, whatever else was built; the first one that could be built is
/// handed out and kept; a failure says why and is not kept.
pub proof fn law_shared_client_is_built_once<T, H>(
    plugin: &mut KafkaBackendPlugin<T, H>,
    built: Option<Built<T>>,
    step: ClientStep<T>,
)
    requires
        call_ensures(KafkaBackendPlugin::<T, H>::shared_bundle, (plugin, built), step),
    ensures
        old(plugin).shared() matches Some(client) ==> {
            &&& step == ClientStep::Ready(client)
            &&& final(plugin).shared() == Some(client)
        },
        old(plugin).shared() is None && built is None ==> {
            &&& step matches ClientStep::Build(params) && {
                &&& params.bootstrap_servers@ == old(plugin).brokers()
                &&& params.group_id@ == old(plugin).group()
                &&& params.sasl_username is None
                &&& params.sasl_password is None
                &&& params.security_protocol is None
                &&& params.sasl_mechanism is None
            }
            &&& final(plugin).shared() is None
        },
        old(plugin).shared() is None ==> (built matches Some(Ok(client)) ==> {
            &&& step == ClientStep::Ready(client)
            &&& final(plugin).shared() == Some(client)
        }),
        old(plugin).shared() is None ==> (built matches Some(Err(cause)) ==> {
            &&& step matches ClientStep::Failed(BackendError::Transport { message }) && message@
                == "building shared Kafka client: "@ + cause@
            &&& final(plugin).shared() is None
        }),
        final(plugin).brokers() == old(plugin).brokers(),
        final(plugin).group() == old(plugin).group(),
        final(plugin).registered() == old(plugin).registered(),
{
}

/// The spec of `draft` is usable where all bindings share the broker list `shared`: both topics
/// say something, hold neither a NUL nor a credential reference and have at most 249
/// characters, the budget and the cap are above zero, and a broker list of its own carries a
/// credential token or is the shared one, if there is one.
pub open spec fn is_usable(draft: ProfileDraft, shared: Seq<char>) -> bool {
    let spec = draft.spec;
    &&& !is_blank(spec.request_topic@)
    &&& !is_blank(spec.response_topic@)
    &&& !spec.request_topic@.contains('\0')
    &&& !spec.response_topic@.contains('\0')
    &&& spec.request_topic@.len() <= 249
    &&& spec.response_topic@.len() <= 249
    &&& !occurs_in("cred://"@, spec.request_topic@)
    &&& !occurs_in("cred://"@, spec.response_topic@)
    &&& spec.timeout_ms > 0
    &&& spec.max_response_bytes > 0
    &&& {
        ||| spec.bootstrap_servers is None
        ||| draft.tokens.bootstrap_servers@.len() > 0
        ||| shared.len() == 0
        ||| spec.bootstrap_servers matches Some(own) && own@ == shared
    }
}

/// A connection parameter of `draft` carries a credential token.
pub open spec fn carries_token(draft: ProfileDraft) -> bool {
    ||| draft.tokens.bootstrap_servers@.len() > 0
    ||| draft.tokens.sasl_username@.len() > 0
    ||| draft.tokens.sasl_password@.len() > 0
}

/// `draft` gives some connection parameter, and none with a credential token.
pub open spec fn needs_own_client(draft: ProfileDraft) -> bool {
    &&& !carries_token(draft)
    &&& {
        ||| draft.spec.bootstrap_servers is Some
        ||| draft.spec.sasl_username is Some
        ||| draft.spec.sasl_password is Some
        ||| draft.spec.security_protocol is Some
        ||| draft.spec.sasl_mechanism is Some
    }
}

/// A binding that is not usable is refused as an invalid spec, whatever was built, and nothing
/// changes. No other binding is.
pub proof fn law_unusable_bindings_are_refused<T, H>(
    plugin: &mut KafkaBackendPlugin<T, H>,
    draft: ProfileDraft,
    built: Option<Built<T>>,
    step: ProfileStep<T>,
)
    requires
        call_ensures(KafkaBackendPlugin::<T, H>::prepare_profile, (plugin, draft, built), step),
    ensures
        step matches ProfileStep::Failed(e) && e is InvalidSpec <==> !is_usable(
            draft,
            old(plugin).brokers(),
        ),
        !is_usable(draft, old(plugin).brokers()) ==> final(plugin).shared() == old(plugin).shared(),
        final(plugin).brokers() == old(plugin).brokers(),
        final(plugin).group() == old(plugin).group(),
        final(plugin).registered() == old(plugin).registered(),
{
    lemma_fault_iff_unusable(draft, plugin.brokers());
}

/// A draft has no fault if and only if it is usable.
proof fn lemma_fault_iff_unusable(draft: ProfileDraft, shared: Seq<char>)
    ensures
        draft.fault(shared) is None <==> is_usable(draft, shared),
{
}

/// A usable binding that gives a connection parameter, and none with a credential token, gets a
/// client of its own: one that is built from what it gives, with the shared brokers where it
/// gives none. The shared client has no part in it.
pub proof fn law_own_settings_get_an_own_client<T, H>(
    plugin: &mut KafkaBackendPlugin<T, H>,
    draft: ProfileDraft,
    built: Option<Built<T>>,
    step: ProfileStep<T>,
)
    requires
        call_ensures(KafkaBackendPlugin::<T, H>::prepare_profile, (plugin, draft, built), step),
        is_usable(draft, old(plugin).brokers()),
        needs_own_client(draft),
    ensures
        built is None ==> (step matches ProfileStep::Build { params, shared, draft: same } && {
            &&& !shared
            &&& same == draft
            &&& draft.spec.bootstrap_servers matches Some(own) ==> params.bootstrap_servers@ == own@
            &&& draft.spec.bootstrap_servers is None ==> params.bootstrap_servers@
                == old(plugin).brokers()
            &&& params.group_id@ == old(plugin).group()
            &&& opt_text(params.sasl_username) == opt_text(draft.spec.sasl_username)
            &&& opt_text(params.sasl_password) == opt_text(draft.spec.sasl_password)
            &&& opt_text(params.security_protocol) == opt_text(draft.spec.security_protocol)
            &&& opt_text(params.sasl_mechanism) == opt_text(draft.spec.sasl_mechanism)
        }),
        built matches Some(Ok(client)) ==> (step matches ProfileStep::Ready(prepared) && {
            &&& prepared.bundle() == client
            &&& prepared.binding() == draft
            &&& prepared.brokers() == old(plugin).brokers()
            &&& prepared.group() == old(plugin).group()
        }),
        built matches Some(Err(cause)) ==> (step matches ProfileStep::Failed(
            BackendError::Transport { message },
        ) && message@ == "building per-binding Kafka client: "@ + cause@),
        final(plugin).shared() == old(plugin).shared(),
{
    lemma_fault_iff_unusable(draft, plugin.brokers());
    assert(draft.tokens@.all().len() == draft.tokens.bootstrap_servers@.len()
        + draft.tokens.sasl_username@.len() + draft.tokens.sasl_password@.len());
}

/// Any other usable binding takes the shared client: the one that is there, or the one that is
/// built for all of them from the plugin's brokers and group.
pub proof fn law_other_bindings_take_the_shared_client<T, H>(
    plugin: &mut KafkaBackendPlugin<T, H>,
    draft: ProfileDraft,
    built: Option<Built<T>>,
    step: ProfileStep<T>,
)
    requires
        call_ensures(KafkaBackendPlugin::<T, H>::prepare_profile, (plugin, draft, built), step),
        is_usable(draft, old(plugin).brokers()),
        !needs_own_client(draft),
    ensures
        step matches ProfileStep::Ready(prepared) ==> {
            &&& prepared.binding() == draft
            &&& prepared.brokers() == old(plugin).brokers()
            &&& prepared.group() == old(plugin).group()
            &&& final(plugin).shared() == Some(prepared.bundle())
        },
        old(plugin).shared() matches Some(client) ==> {
            &&& step is Ready
            &&& final(plugin).shared() == Some(client)
        },
        old(plugin).shared() is None && built is None ==> {
            &&& step matches ProfileStep::Build { params, shared, draft: same } && {
                &&& shared
                &&& same == draft
                &&& params.bootstrap_servers@ == old(plugin).brokers()
                &&& params.group_id@ == old(plugin).group()
                &&& params.sasl_username is None
                &&& params.sasl_password is None
                &&& params.security_protocol is None
                &&& params.sasl_mechanism is None
            }
            &&& final(plugin).shared() is None
        },
        old(plugin).shared() is None ==> (built matches Some(Ok(client)) ==> {
            &&& step is Ready
            &&& final(plugin).shared() == Some(client)
        }),
        old(plugin).shared() is None ==> (built matches Some(Err(cause)) ==> {
            &&& step matches ProfileStep::Failed(BackendError::Transport { message }) && message@
                == "building shared Kafka client: "@ + cause@
            &&& final(plugin).shared() is None
        }),
{
    lemma_fault_iff_unusable(draft, plugin.brokers());
    assert(draft.tokens@.all().len() == draft.tokens.bootstrap_servers@.len()
        + draft.tokens.sasl_username@.len() + draft.tokens.sasl_password@.len());
}

/// What a plugin with other brokers or another group has prepared is handed back and changes
/// nothing. Any other prepared binding is registered under its name, in place of an earlier one
/// and beside all the others, with what its spec says and the client that is its own or that
/// all such bindings share.
pub proof fn law_prepared_bindings_are_registered<T, H>(
    plugin: &mut KafkaBackendPlugin<T, H>,
    prepared: PreparedProfile<T>,
    handles: H,
    result: Result<(), PreparedProfile<T>>,
)
    requires
        call_ensures(
            KafkaBackendPlugin::<T, H>::register_profile,
            (plugin, prepared, handles),
            result,
        ),
    ensures
        result is Ok <==> {
            &&& prepared.brokers() == old(plugin).brokers()
            &&& prepared.group() == old(plugin).group()
        },
        result matches Err(same) ==> {
            &&& same == prepared
            &&& final(plugin).registered() == old(plugin).registered()
            &&& final(plugin).shared() == old(plugin).shared()
        },
        result is Ok ==> {
            let draft = prepared.binding();
            let name = draft.backend_name@;
            let profile = final(plugin).registered()[name];
            &&& final(plugin).registered() == old(plugin).registered().insert(name, profile)
            &&& profile.request_topic@ == draft.spec.request_topic@
            &&& profile.response_topic@ == draft.spec.response_topic@
            &&& profile.timeout_ms == draft.spec.timeout_ms
            &&& profile.max_response_bytes == draft.spec.max_response_bytes
            &&& *profile.cfg == draft.spec
            &&& profile.tokens == draft.tokens
            &&& profile.has_cred_refs <==> carries_token(draft)
            &&& profile.group_id@ == old(plugin).group()
            &&& profile.handles == handles
            &&& needs_own_client(draft) ==> {
                &&& profile.static_bundle == prepared.bundle()
                &&& final(plugin).shared() == old(plugin).shared()
            }
            &&& !needs_own_client(draft) ==> {
                &&& final(plugin).shared() == Some(profile.static_bundle)
                &&& old(plugin).shared() matches Some(client) ==> profile.static_bundle == client
                &&& old(plugin).shared() is None ==> profile.static_bundle == prepared.bundle()
            }
        },
        final(plugin).brokers() == old(plugin).brokers(),
        final(plugin).group() == old(plugin).group(),
{
    let draft = prepared.binding();
    assert(draft.tokens@.all().len() == draft.tokens.bootstrap_servers@.len()
        + draft.tokens.sasl_username@.len() + draft.tokens.sasl_password@.len());
}

/// A call goes to the binding that is registered under its name; without one it fails and the
/// failure names it.
pub proof fn law_calls_find_their_binding<T, H>(
    plugin: KafkaBackendPlugin<T, H>,
    backend_name: &str,
    found: Result<Arc<KafkaProfileRuntime<T, H>>, BackendError>,
)
    requires
        call_ensures(KafkaBackendPlugin::<T, H>::profile, (&plugin, backend_name), found),
    ensures
        found is Ok <==> plugin.registered().contains_key(backend_name@),
        found matches Ok(profile) ==> {
            &&& profile == plugin.registered()[backend_name@]
            &&& profile.request_topic@ == profile.cfg.request_topic@
            &&& profile.response_topic@ == profile.cfg.response_topic@
            &&& profile.timeout_ms == profile.cfg.timeout_ms && profile.timeout_ms > 0
            &&& profile.max_response_bytes == profile.cfg.max_response_bytes
                && profile.max_response_bytes > 0
            &&& profile.group_id@ == plugin.group()
        },
        found matches Err(e) ==> (e matches BackendError::ProfileNotFound { backend_name: name }
            && name@ == backend_name@),
{
}

/// A plugin begins without bindings, with the brokers and the group it is given and, if it is
/// made with one, its shared client. A client that could not be built is no plugin. It serves
/// bindings of the kind `kafka`.
pub proof fn law_plugin_begins_as_configured<T, H, E>(
    bootstrap_servers: &str,
    group_id: &str,
    built: Result<Arc<T>, E>,
    made: Result<KafkaBackendPlugin<T, H>, E>,
    config: KafkaPluginConfig,
    configured: KafkaBackendPlugin<T, H>,
    brokers: &str,
    group: &str,
    kind: &'static str,
    backend_name: Seq<char>,
)
    requires
        call_ensures(
            KafkaBackendPlugin::<T, H>::new::<E>,
            (bootstrap_servers, group_id, built),
            made,
        ),
        call_ensures(KafkaBackendPlugin::<T, H>::from_config, (config,), configured),
        call_ensures(
            KafkaBackendPlugin::<T, H>::shared_bootstrap_servers,
            (&configured,),
            brokers,
        ),
        call_ensures(KafkaBackendPlugin::<T, H>::group_id, (&configured,), group),
        call_ensures(KafkaBackendPlugin::<T, H>::kind, (&configured,), kind),
    ensures
        built matches Ok(client) ==> (made matches Ok(plugin) && {
            &&& plugin.brokers() == bootstrap_servers@
            &&& plugin.group() == group_id@
            &&& plugin.shared() == Some(client)
            &&& !plugin.registered().contains_key(backend_name)
        }),
        built matches Err(e) ==> (made matches Err(same) && same == e),
        brokers@ == config.bootstrap_servers@,
        group@ == config.group_id@,
        configured.brokers() == brokers@,
        configured.group() == group@,
        configured.shared() is None,
        !configured.registered().contains_key(backend_name),
        kind@ == "kafka"@,
{
}

} // verus!
