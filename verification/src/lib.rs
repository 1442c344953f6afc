//! Decoder for the compact textual encoding of a train's physical composition
//! (an ordered sequence of rail vehicles with service class, status and
//! amenities), together with the pieces of a continuously refreshed roster of
//! currently running trains: discovery of active train numbers from a
//! departure-board document, classification of per-train fetch outcomes, and
//! the merge/evict policy of the roster itself.
#![verifier::loop_isolation(false)]

pub mod chars;
pub mod formation;
pub mod vehicle;
pub mod parser;
pub mod classify;
pub mod discovery;
pub mod roster;
pub mod sync;
