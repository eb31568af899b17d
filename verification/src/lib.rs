//! Core state machine of a windowed photo browser: a navigation cursor over an
//! ordered catalog of image identifiers, a prefetch scheduler that decides which
//! indices need decoding, a bounded window cache holding decoded entries around
//! the cursor, and the bookkeeping that keeps all of them consistent across
//! navigation, asynchronous decode completion, and deletion.

pub mod cache;
pub mod catalog;
pub mod decode;
pub mod entry;
pub mod inflight;
pub mod laws;
pub mod metadata;
pub mod scheduler;
pub mod selector;
