//! A small peer-to-peer node stack: envelope framing, a capability handshake,
//! protocol routing and a header chain kept in sync by longest-chain fork choice.

pub mod chain;
pub mod crypto;
pub mod discovery;
pub mod enr;
pub mod envelope;
pub mod fork_choice;
pub mod header;
pub mod ident;
pub mod manager;
pub mod message;
pub mod mux;
pub mod session;
pub mod transport;
