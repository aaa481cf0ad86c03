//! The failures of a backend call and of a watch, and their exact texts.
use vstd::prelude::*;

use crate::text::join;

verus! {

/// Why a binding could not be registered or a call failed.
#[derive(Debug)]
pub enum BackendError {
    /// No profile is registered under this name.
    ProfileNotFound { backend_name: String },
    /// The transport failed.
    Transport { message: String },
    /// No correlated reply came within the budget.
    Timeout { timeout_ms: u64 },
    /// The binding spec is not usable.
    InvalidSpec { message: String },
}

/// What a [`BackendError`] says, as text.
pub ghost enum BackendErrorView {
    /// See [`BackendError::ProfileNotFound`].
    ProfileNotFound(Seq<char>),
    /// See [`BackendError::Transport`].
    Transport(Seq<char>),
    /// See [`BackendError::Timeout`].
    Timeout(u64),
    /// See [`BackendError::InvalidSpec`].
    InvalidSpec(Seq<char>),
}

impl View for BackendError {
    type V = BackendErrorView;

    open spec fn view(&self) -> BackendErrorView {
        match self {
            BackendError::ProfileNotFound { backend_name } => BackendErrorView::ProfileNotFound(
                backend_name@,
            ),
            BackendError::Transport { message } => BackendErrorView::Transport(message@),
            BackendError::Timeout { timeout_ms } => BackendErrorView::Timeout(*timeout_ms),
            BackendError::InvalidSpec { message } => BackendErrorView::InvalidSpec(message@),
        }
    }
}

/// The `error_kind` metric label of an error.
pub open spec fn error_label(error: BackendErrorView) -> Seq<char> {
    match error {
        BackendErrorView::ProfileNotFound(_) => "profile_not_found"@,
        BackendErrorView::Transport(_) => "transport"@,
        BackendErrorView::Timeout(_) => "timeout"@,
        BackendErrorView::InvalidSpec(_) => "invalid_spec"@,
    }
}

impl BackendError {
    /// The bounded `error_kind` metric label of this error.
    pub fn label(&self) -> (label: &'static str)
        ensures
            label@ == error_label(self@),
    {
        match self {
            BackendError::ProfileNotFound { .. } => "profile_not_found",
            BackendError::Transport { .. } => "transport",
            BackendError::Timeout { .. } => "timeout",
            BackendError::InvalidSpec { .. } => "invalid_spec",
        }
    }
}

/// Why a watch could not be set up.
#[derive(Debug)]
pub enum WatchError {
    /// The watch spec is not usable.
    InvalidSpec { message: String },
    /// The consumer could not be created or subscribed.
    Subscribe { message: String },
}

/// What a [`WatchError`] says, as text.
pub ghost enum WatchErrorView {
    /// See [`WatchError::InvalidSpec`].
    InvalidSpec(Seq<char>),
    /// See [`WatchError::Subscribe`].
    Subscribe(Seq<char>),
}

impl View for WatchError {
    type V = WatchErrorView;

    open spec fn view(&self) -> WatchErrorView {
        match self {
            WatchError::InvalidSpec { message } => WatchErrorView::InvalidSpec(message@),
            WatchError::Subscribe { message } => WatchErrorView::Subscribe(message@),
        }
    }
}

/// The step of a registration or a call at which the transport failed.
pub enum TransportStep {
    /// Building the client that all bindings share.
    SharedClient,
    /// Building the client of one binding.
    BindingClient,
    /// Building the client of one resolved credential bundle.
    CredentialClient,
    /// Asking the host to resolve credentials.
    CredentialResolution,
    /// Subscribing to a response topic.
    Subscribe { topic: String },
    /// Producing to a request topic.
    Produce { topic: String },
    /// Consuming replies.
    Consume,
}

/// The message of a transport failure at `step` whose cause reads `cause`.
pub open spec fn transport_message(step: TransportStep, cause: Seq<char>) -> Seq<char> {
    match step {
        TransportStep::SharedClient => "building shared Kafka client: "@ + cause,
        TransportStep::BindingClient => "building per-binding Kafka client: "@ + cause,
        TransportStep::CredentialClient => "building per-credential Kafka client: "@ + cause,
        TransportStep::CredentialResolution => "credential resolution: "@ + cause,
        TransportStep::Subscribe { topic } => "subscribe to '"@ + topic@ + "' failed: "@ + cause,
        TransportStep::Produce { topic } => "produce to '"@ + topic@ + "' failed: "@ + cause,
        TransportStep::Consume => "Kafka consume: "@ + cause,
    }
}

/// The error of a transport failure at `step` whose cause reads `cause`.
pub fn transport_error(step: &TransportStep, cause: &str) -> (error: BackendError)
    ensures
        error@ == BackendErrorView::Transport(transport_message(*step, cause@)),
{
    let message = match step {
        TransportStep::SharedClient => join("building shared Kafka client: ", cause),
        TransportStep::BindingClient => join("building per-binding Kafka client: ", cause),
        TransportStep::CredentialClient => join("building per-credential Kafka client: ", cause),
        TransportStep::CredentialResolution => join("credential resolution: ", cause),
        TransportStep::Subscribe { topic } => join(
            &join(&join("subscribe to '", topic), "' failed: "),
            cause,
        ),
        TransportStep::Produce { topic } => join(
            &join(&join("produce to '", topic), "' failed: "),
            cause,
        ),
        TransportStep::Consume => join("Kafka consume: ", cause),
    };
    BackendError::Transport { message }
}

/// Every failure has its own metric label.
pub proof fn law_labels_name_the_failure(error: BackendError)
    ensures
        error_label(error@) == match error {
            BackendError::ProfileNotFound { .. } => "profile_not_found"@,
            BackendError::Transport { .. } => "transport"@,
            BackendError::Timeout { .. } => "timeout"@,
            BackendError::InvalidSpec { .. } => "invalid_spec"@,
        },
{
}

/// The message of a transport failure tells the step, and ends in the cause.
pub proof fn law_transport_messages_end_in_the_cause(topic: String, cause: Seq<char>)
    ensures
        transport_message(TransportStep::SharedClient, cause) == "building shared Kafka client: "@
            + cause,
        transport_message(TransportStep::BindingClient, cause)
            == "building per-binding Kafka client: "@ + cause,
        transport_message(TransportStep::CredentialClient, cause)
            == "building per-credential Kafka client: "@ + cause,
        transport_message(TransportStep::CredentialResolution, cause)
            == "credential resolution: "@ + cause,
        transport_message(TransportStep::Subscribe { topic }, cause) == "subscribe to '"@ + topic@
            + "' failed: "@ + cause,
        transport_message(TransportStep::Produce { topic }, cause) == "produce to '"@ + topic@
            + "' failed: "@ + cause,
        transport_message(TransportStep::Consume, cause) == "Kafka consume: "@ + cause,
{
}

/// An error says what its fields say.
pub proof fn law_errors_are_taken_as_they_are(error: BackendError, watch: WatchError)
    ensures
        match error {
            BackendError::ProfileNotFound { backend_name } => error@
                == BackendErrorView::ProfileNotFound(backend_name@),
            BackendError::Transport { message } => error@ == BackendErrorView::Transport(message@),
            BackendError::Timeout { timeout_ms } => error@ == BackendErrorView::Timeout(timeout_ms),
            BackendError::InvalidSpec { message } => error@ == BackendErrorView::InvalidSpec(
                message@,
            ),
        },
        match watch {
            WatchError::InvalidSpec { message } => watch@ == WatchErrorView::InvalidSpec(message@),
            WatchError::Subscribe { message } => watch@ == WatchErrorView::Subscribe(message@),
        },
{
}

} // verus!
