use vstd::prelude::*;

verus! {

/// Version of the session layer announced in [`Hello`].
pub const PROTOCOL_VERSION: u32 = 1;

/// Genesis hash of the network this node belongs to.
pub const NETWORK_GENESIS: &'static str = "0xgenesis";

pub open spec fn str_views(s: Seq<String>) -> Seq<Seq<char>> {
    s.map_values(|x: String| x@)
}

/// The local capabilities that the remote side also lists, in local order.
pub open spec fn common_caps(local: Seq<Seq<char>>, remote: Seq<Seq<char>>) -> Seq<Seq<char>> {
    local.filter(|c: Seq<char>| remote.contains(c))
}

/// Opens a session: who we are and which protocols we speak.
#[derive(Debug, Clone)]
pub struct Hello {
    pub node_id: String,
    pub protocol_version: u32,
    pub capabilities: Vec<String>,
    pub genesis: String,
    pub head_height: u64,
}

/// Answers a [`Hello`] with the capabilities both sides share.
#[derive(Debug, Clone)]
pub struct HelloAck {
    pub node_id: String,
    pub agreed_capabilities: Vec<String>,
}

#[derive(Debug, Clone)]
pub enum SessionMessage {
    Hello(Hello),
    HelloAck(HelloAck),
}

/// An established session: the peer and the protocols it may use.
#[derive(Debug, Clone)]
pub struct PeerSession {
    pub remote_node_id: String,
    pub agreed_caps: Vec<String>,
}

/// Why a handshake was rejected.
#[derive(Debug, Clone, Copy, PartialEq, Eq, Structural)]
pub enum HandshakeError {
    /// The stream could not be opened, written or read.
    Transport,
    /// The bytes received are not a session message.
    Malformed,
    /// A session message of the wrong kind arrived.
    UnexpectedMessage,
}

/// Tells whether `name` is one of `list`.
pub fn contains_str(list: &[String], name: &String) -> (r: bool)
    ensures
        r == str_views(list@).contains(name@),
{
    let mut i: usize = 0;
    while i < list.len()
        invariant
            0 <= i <= list@.len(),
            forall|j: int| 0 <= j < i ==> #[trigger] list@[j]@ != name@,
        decreases list@.len() - i,
    {
        if list[i] == *name {
            assert(str_views(list@)[i as int] == name@);
            return true;
        }
        i = i + 1;
    }
    assert forall|j: int| 0 <= j < str_views(list@).len() implies #[trigger] str_views(list@)[j] != name@ by {
        assert(str_views(list@)[j] == list@[j]@);
    }
    false
}

fn copy_strings(list: &[String]) -> (r: Vec<String>)
    ensures
        str_views(r@) == str_views(list@),
{
    let mut out: Vec<String> = Vec::new();
    let mut i: usize = 0;
    while i < list.len()
        invariant
            0 <= i <= list@.len(),
            out@.len() == i,
            forall|j: int| 0 <= j < i ==> #[trigger] out@[j]@ == list@[j]@,
        decreases list@.len() - i,
    {
        out.push(list[i].clone());
        i = i + 1;
    }
    assert(str_views(out@) =~= str_views(list@));
    out
}

/// The ordered intersection of two capability lists: the local capabilities
/// that the remote side also lists, in local order.
pub fn intersect_caps(local: &[String], remote: &[String]) -> (r: Vec<String>)
    ensures
        str_views(r@) == common_caps(str_views(local@), str_views(remote@)),
{
    let ghost rv = str_views(remote@);
    let ghost pred = |c: Seq<char>| rv.contains(c);
    let mut out: Vec<String> = Vec::new();
    let mut i: usize = 0;
    proof {
        reveal(Seq::filter);
        assert(str_views(local@.take(0)) =~= Seq::<Seq<char>>::empty());
    }
    while i < local.len()
        invariant
            0 <= i <= local@.len(),
            rv == str_views(remote@),
            pred == (|c: Seq<char>| rv.contains(c)),
            str_views(out@) == str_views(local@.take(i as int)).filter(pred),
        decreases local@.len() - i,
    {
        let ghost before = str_views(local@.take(i as int));
        let ghost after = str_views(local@.take(i + 1));
        proof {
            reveal(Seq::filter);
            assert(after.drop_last() =~= before);
            assert(after.last() == local@[i as int]@);
        }
        if contains_str(remote, &local[i]) {
            out.push(local[i].clone());
            assert(str_views(out@) =~= before.filter(pred).push(local@[i as int]@));
        }
        i = i + 1;
    }
    assert(local@.take(local@.len() as int) =~= local@);
    out
}

/// The `Hello` that opens an outbound session.
pub fn hello(local_node_id: &String, local_caps: &[String]) -> (r: Hello)
    ensures
        r.node_id@ == local_node_id@,
        r.protocol_version == PROTOCOL_VERSION,
        str_views(r.capabilities@) == str_views(local_caps@),
        r.genesis@ == NETWORK_GENESIS@,
        r.head_height == 0,
{
    Hello {
        node_id: local_node_id.clone(),
        protocol_version: PROTOCOL_VERSION,
        capabilities: copy_strings(local_caps),
        genesis: NETWORK_GENESIS.to_owned(),
        head_height: 0,
    }
}

/// Inbound side: given what arrived on the first stream (`None` when it was
/// not a session message), either the `HelloAck` to send back together with
/// the established session, or why the handshake is rejected.
pub fn answer_hello(
    local_node_id: &String,
    local_caps: &[String],
    received: Option<SessionMessage>,
) -> (r: Result<(HelloAck, PeerSession), HandshakeError>)
    ensures
        match received {
            None => r == Err::<(HelloAck, PeerSession), HandshakeError>(HandshakeError::Malformed),
            Some(SessionMessage::HelloAck(_)) => r == Err::<(HelloAck, PeerSession), HandshakeError>(
                HandshakeError::UnexpectedMessage,
            ),
            Some(SessionMessage::Hello(h)) => r matches Ok((ack, sess)) && {
                let agreed = common_caps(str_views(local_caps@), str_views(h.capabilities@));
                &&& ack.node_id@ == local_node_id@
                &&& str_views(ack.agreed_capabilities@) == agreed
                &&& sess.remote_node_id@ == h.node_id@
                &&& str_views(sess.agreed_caps@) == agreed
            },
        },
{
    match received {
        None => Err(HandshakeError::Malformed),
        Some(SessionMessage::HelloAck(_)) => Err(HandshakeError::UnexpectedMessage),
        Some(SessionMessage::Hello(h)) => {
            let agreed = intersect_caps(local_caps, h.capabilities.as_slice());
            let ack = HelloAck {
                node_id: local_node_id.clone(),
                agreed_capabilities: copy_strings(agreed.as_slice()),
            };
            Ok((ack, PeerSession { remote_node_id: h.node_id, agreed_caps: agreed }))
        },
    }
}

/// Outbound side: the session that the peer's answer establishes, or why the
/// handshake is rejected.
pub fn complete_outbound(received: Option<SessionMessage>) -> (r: Result<PeerSession, HandshakeError>)
    ensures
        match received {
            None => r == Err::<PeerSession, HandshakeError>(HandshakeError::Malformed),
            Some(SessionMessage::Hello(_)) => r == Err::<PeerSession, HandshakeError>(
                HandshakeError::UnexpectedMessage,
            ),
            Some(SessionMessage::HelloAck(ack)) => r matches Ok(sess) && sess.remote_node_id@
                == ack.node_id@ && str_views(sess.agreed_caps@) == str_views(ack.agreed_capabilities@),
        },
{
    match received {
        None => Err(HandshakeError::Malformed),
        Some(SessionMessage::Hello(_)) => Err(HandshakeError::UnexpectedMessage),
        Some(SessionMessage::HelloAck(ack)) => Ok(
            PeerSession { remote_node_id: ack.node_id, agreed_caps: ack.agreed_capabilities },
        ),
    }
}

} // verus!
