//! A host-facing bridge over the Yggdrasil toggle-evaluation engine: a
//! protobuf codec for contexts and evaluated toggles, a JSON status envelope,
//! and the dispatch that ties them to an engine instance.

pub mod bindings;
pub mod context;
pub mod dispatch;
pub mod envelope;
pub mod error;
pub mod lock;
pub mod messages;
pub mod readback;
pub mod wire;
