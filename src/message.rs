use vstd::prelude::*;

use crate::header::Header;

verus! {

/// A snapshot of a node's canonical chain, sent so that peers can decide
/// whether to ask it for headers.
#[derive(Debug, Clone)]
pub struct Status {
    pub genesis_hash: String,
    pub head_hash: String,
    pub head_number: u64,
}

/// Asks for up to `count` canonical headers, starting at number `start`.
#[derive(Debug, Clone, Copy)]
pub struct RequestHeaders {
    pub start: u64,
    pub count: u64,
}

/// Headers in ascending order, the answer to a [`RequestHeaders`].
#[derive(Debug, Clone)]
pub struct Headers {
    pub headers: Vec<Header>,
}

/// The messages of the header synchronisation protocol.
#[derive(Debug, Clone)]
pub enum MiniSyncMessage {
    Status(Status),
    RequestHeaders(RequestHeaders),
    Headers(Headers),
}

} // verus!
