//! Chunked world streaming: deterministic terrain generation, a bounded
//! server-side chunk store with eviction, a client-side visibility and
//! request tracker, and the wire protocol connecting the two.

pub mod client;
pub mod coords;
pub mod field_noise;
pub mod generation;
pub mod protocol;
pub mod store;
pub mod table;
pub mod terrain;
pub mod window;
