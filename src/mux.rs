use vstd::prelude::*;

use crate::envelope::Envelope;
use crate::session::{contains_str, str_views};

verus! {

/// Tag of the discovery protocol.
pub const DISC_PROTO: &'static str = "discv-lite/0.1";

/// Tag of the header synchronisation protocol.
pub const SYNC_PROTO: &'static str = "mini-sync/0.1";

/// The protocols a connection carries.
#[derive(Debug, Clone, Copy, PartialEq, Eq, Structural)]
pub enum Protocol {
    Discovery,
    Sync,
}

/// The protocol a tag names, if any.
pub open spec fn tag_protocol(tag: Seq<char>) -> Option<Protocol> {
    if tag == DISC_PROTO@ {
        Some(Protocol::Discovery)
    } else if tag == SYNC_PROTO@ {
        Some(Protocol::Sync)
    } else {
        None
    }
}

/// Where a frame tagged `tag` goes on a session that agreed on `caps`: to the
/// handler of the protocol the tag names, and only if the tag was agreed on.
pub open spec fn destination(caps: Seq<Seq<char>>, tag: Seq<char>) -> Option<Protocol> {
    if caps.contains(tag) {
        tag_protocol(tag)
    } else {
        None
    }
}

/// The handler an envelope goes to on a session that agreed on
/// `agreed_caps`; `None` means the frame is dropped.
pub fn route(agreed_caps: &[String], env: &Envelope) -> (r: Option<Protocol>)
    ensures
        r == destination(str_views(agreed_caps@), env.proto@),
{
    if !contains_str(agreed_caps, &env.proto) {
        return None;
    }
    let disc = DISC_PROTO.to_owned();
    let sync = SYNC_PROTO.to_owned();
    if env.proto == disc {
        Some(Protocol::Discovery)
    } else if env.proto == sync {
        Some(Protocol::Sync)
    } else {
        None
    }
}

/// On a session whose agreed capabilities leave out the synchronisation
/// protocol, no frame reaches the synchronisation handler, whatever its tag,
/// so no frame on it changes the chain manager.
pub proof fn lemma_sync_needs_capability(caps: Seq<Seq<char>>, tag: Seq<char>)
    requires
        !caps.contains(SYNC_PROTO@),
    ensures
        destination(caps, tag) != Some(Protocol::Sync),
{
}

} // verus!
