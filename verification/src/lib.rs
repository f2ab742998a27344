//! Control plane of a WireGuard mesh: request signing, key derivation,
//! address allocation, and the probe state machine that picks between a
//! direct tunnel and the relay.
//!
//! The coordinator is `config`, `signers`, `store`, `relay` and `server`; the
//! agent is `agent`, `coord_client`, `lan`, `probe` and `stun`. Both rest on
//! `api`, `sig`, `keyderive` and `wglink`. What they decide is here; sockets,
//! files, programs and JSON are the caller's.

pub mod agent;
pub mod api;
pub mod clock;
pub mod config;
pub mod coord_client;
pub mod crypto;
pub mod keyderive;
pub mod lan;
pub mod net;
pub mod num;
pub mod probe;
pub mod relay;
pub mod server;
pub mod sig;
pub mod signers;
pub mod store;
pub mod strmap;
pub mod stun;
pub mod text;
pub mod tools;
pub mod wglink;
