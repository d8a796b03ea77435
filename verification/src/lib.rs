//! The world engine of a multiplayer voxel-world service: a chunked,
//! persistent block store with lazy terrain generation, a deterministic
//! integer terrain model over sampled column heights, and the session
//! layer that parses the wire protocol, mutates the store, and fans
//! outbound frames to the connected sessions. Every function here
//! carries a verified contract; the network transport, the file system
//! and the floating-point noise sampling live outside, behind plain
//! values.

pub mod assoc;
pub mod block;
pub mod chunk;
pub mod coords;
pub mod deflate;
pub mod protocol;
pub mod server;
pub mod wire;
pub mod worldgen;
pub mod worldmap;
