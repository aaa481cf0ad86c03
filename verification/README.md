# Kafka binding

Backend and watch plugin for the MCPG gateway.

- A binding of kind `kafka` dispatches a call as a round trip: the payload is produced to a
  request topic with a unique `correlation_id` header, and the first reply on the response
  topic that carries the same id is returned, cut off at `max_response_bytes`. Without one
  the call ends in a timeout once `timeout_ms` are over.
- A watch of kind `kafka_topic` emits one event per record on a topic.
- A `${cred://issuer/target}` token in `bootstrap_servers`, `sasl_username` or
  `sasl_password` is resolved per caller, and the client is cached under a digest of what
  came of it. A bare `cred://…` is plain text.

## Layout

- `src/` is the library, verified with Verus: specs and their rules, the registered
  bindings, headers, correlation, budget and cap, credential resolution, the client cache
  and the watch. It does no I/O; its functions say what to do next and take what came of
  it.
- `app/` is the plugin around it: clients, host services, timers, metrics and the exported
  entities.
- `tests/` runs the library with the real outside crates. No broker is needed.

## What is proved

The contracts fix every result, every error and its text. Statements about the library as
a whole are public proof functions whose names begin with `law_`, among them:

- a reply is matched to the call whose correlation id it carries, and the first one within
  the budget is the answer
- the host is asked to resolve the operator's references and nothing else
- what a caller writes into a request has no part in the resolution of credentials
- callers with the same credentials share a client, callers with different ones never do
- revoking a credential drops every cached client that depends on it
- producer idempotence is never touched, and no security setting is made up

What the outside crates do (`blake3`, `rdkafka`, `serde_json`, `uuid`, and of the standard
library the `Debug` rendering of text and the milliseconds of a `Duration`) is stated in a
few small wrappers and not proved.
