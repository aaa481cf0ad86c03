//! Kafka binding for the MCPG gateway.
//!
//! - [`KafkaBackendPlugin`] serves bindings of kind `kafka`. A call is a round trip: its
//!   payload is produced to a request topic with a unique `correlation_id` header, and the
//!   first reply on the response topic that carries the same id is handed back.
//! - [`KafkaWatchPlugin`] serves watches of kind `kafka_topic`. Every record on the watched
//!   topic counts as a change of the resource.
//!
//! The crate decides; its owner acts. Clients, sockets, clocks and the gateway's host are
//! the owner's: functions here say what to do next, and take what came of it. What a
//! client is (`T`), who calls (`I`) and what lives with a binding (`H`) is open.
//!
//! - [`spec`]: configuration, binding specs and watch specs, and the rules they meet
//! - [`plugin`], [`profile`]: the shared client and the registered bindings
//! - [`call`], [`message`]: the round trip, its headers, its budget and its cap
//! - [`credentials`], [`snapshot`], [`resolution`]: per-caller credentials
//! - [`client_registry`], [`digest`]: the cache of per-credential clients
//! - [`connection`]: client settings
//! - [`watch`]: the watch strategy
//! - [`error`], [`text`]: failures and their texts, and text itself

pub mod call;
pub mod client_registry;
pub mod connection;
pub mod credentials;
pub mod digest;
pub mod error;
pub mod message;
pub mod plugin;
pub mod profile;
pub mod resolution;
pub mod snapshot;
pub mod spec;
pub mod text;
pub mod watch;

pub use crate::plugin::KafkaBackendPlugin;
pub use crate::watch::KafkaWatchPlugin;
