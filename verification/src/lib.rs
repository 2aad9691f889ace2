//! Verified core of a real-time chat gateway.
//!
//! - [`json`]: the structured payload language, a byte-level JSON model
//!   with a verified serializer and parser, and the proof that parsing a
//!   serialized document yields it back.
//! - [`codec`]: the wire frame codec, deflate compression behind trusted
//!   wrappers, the `{"type", "data"}` envelope, and frame decoding.
//! - [`store`]: a modelled key/value store with expiry and the cache-aside
//!   layer that reads through it.
//! - [`aggregate`]: session snapshot aggregation, the relationship graph as
//!   a viewer sees it, the user directory, channel indexing, presence
//!   defaulting, and the snapshot document builders.
//! - [`session`]: one gateway session, its connect plan, inbound frame
//!   dispatch, and subscription bookkeeping and teardown.
//! - [`names`]: the protocol's names as byte strings.
//!
//! Everything the process does beyond this logic (sockets, the relational
//! store, the pub/sub bus) lives outside the library and hands it plain
//! values.
pub mod aggregate;
pub mod codec;
pub mod json;
pub mod names;
pub mod session;
pub mod store;
pub mod util;
