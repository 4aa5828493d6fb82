//! Correlation bridge: a synchronous-looking caller issues a request, the
//! request travels over a topic-based bus to a remote worker, and the reply
//! is matched back to the caller by a generated correlation identifier.
//!
//! The crate holds the verified core: the bounded correlation store, the
//! envelope codec, the dispatcher's deadline bookkeeping, the response
//! listener's per-message step and the remote worker's per-message step.
//! The surrounding runtime (bus clients, task spawning, configuration) is
//! ordinary plumbing around these functions.

pub mod channel;
pub mod codec;
pub mod corrid;
pub mod digits;
pub mod dispatch;
pub mod escape;
pub mod fruits;
pub mod listener;
pub mod models;
pub mod store;
pub mod text;
pub mod worker;
