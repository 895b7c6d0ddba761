//! A minimal RPC framework: delimiter-framed JSON messages over a byte
//! stream, topic-addressed requests dispatched to registered handlers,
//! and responses correlated back to callers by request identifier.
//!
//! The library is the protocol's decision core: framing, the message
//! model, the correlation table, the handler registry and the dispatch
//! policy. Sockets, threads and blocking live with the embedding
//! program, which drives this core with plain values.

pub mod client;
pub mod correlation;
pub mod framer;
pub mod request;
pub mod response;
pub mod server;
pub mod table;
pub mod value;
pub mod wire;
