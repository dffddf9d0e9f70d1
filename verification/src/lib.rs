//! Session protocol engine for a plugin-backed search provider.
//!
//! The provider process loads a set of search plugins, exposes them to a
//! single subscriber over a line-oriented byte stream, and multiplexes
//! query and selection requests across the plugins. This crate holds the
//! verified core of that design: the wire data model, the ordered plugin
//! registry with its per-round dispatch state, the line framing of the
//! transport, and the per-connection session state machine that decides
//! every protocol transition. The unverified shell around it performs the
//! socket reads and writes, spawns the per-plugin worker threads, and
//! makes the actual plugin calls, feeding their outcomes back into the
//! state machine as events.

pub mod codec;
pub mod engine;
pub mod protocol;
pub mod registry;
