//! World runtime of a tile-based multiplayer session server: the wire
//! codec, the deadline-ordered job queue, the spatial map with its movement
//! rules, the connection registry, and the gateway's token check.
pub mod bytes;
pub mod codec;
pub mod constants;
pub mod gatekeeper;
pub mod incoming_handler;
pub mod job;
pub mod job_handler;
pub mod math;
pub mod token;
pub mod wire;
pub mod world;
