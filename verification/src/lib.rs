//! Single-decree-per-key Paxos for a ballot-versioned key/value register.
//!
//! Proposers drive the two-phase protocol (`client`), acceptors answer
//! Prepare/Accept/Ping requests against per-key versioned storage (`server`,
//! `storage`), every request travels in a uniquely identified envelope
//! (`messages`, `pending`), and the wire format is a verified byte codec
//! (`codec`). The network is a capability (`net`) with a deterministic,
//! fault-injecting in-process implementation (`sim`) driven by `simulator`.

pub mod client;
pub mod codec;
pub mod messages;
pub mod net;
pub mod pending;
pub mod sim;
pub mod simulator;
pub mod server;
pub mod storage;
pub mod versioned;

pub use client::Client;
pub use net::Net;
pub use server::Server;
pub use simulator::simulate;
pub use versioned::VersionedValue;
