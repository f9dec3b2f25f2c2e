use vstd::prelude::*;

verus! {

/// A fresh byte vector with the same bytes.
pub fn dup_bytes(v: &Vec<u8>) -> (r: Vec<u8>)
    ensures
        r@ == v@,
{
    let r = v.clone();
    proof {
        assert forall|i: int| 0 <= i < v@.len() implies r@[i] == v@[i] by {
            assert(cloned::<u8>(v@[i], r@[i]));
        }
        assert(r@ =~= v@);
    }
    r
}

/// Whether two byte vectors hold the same bytes.
pub fn bytes_eq(a: &Vec<u8>, b: &Vec<u8>) -> (r: bool)
    ensures
        r == (a@ == b@),
{
    if a.len() != b.len() {
        return false;
    }
    let mut i: usize = 0;
    while i < a.len()
        invariant
            0 <= i <= a@.len(),
            a@.len() == b@.len(),
            forall|j: int| 0 <= j < i ==> a@[j] == b@[j],
        decreases a@.len() - i,
    {
        if a[i] != b[i] {
            return false;
        }
        i += 1;
    }
    proof {
        assert(a@ =~= b@);
    }
    true
}

/// A participant identifier: the raw 32 bytes of an x-only public key.
/// Equality is equality of the bytes.
pub struct PeerId {
    pub bytes: Vec<u8>,
}

/// The number of bytes in a peer identifier.
pub const PEER_ID_LEN: usize = 32;

impl View for PeerId {
    type V = Seq<u8>;

    open spec fn view(&self) -> Seq<u8> {
        self.bytes@
    }
}

impl PeerId {
    /// A well-formed identifier holds exactly 32 bytes.
    pub open spec fn wf(&self) -> bool {
        self.bytes@.len() == PEER_ID_LEN
    }

    pub fn new(bytes: Vec<u8>) -> (r: PeerId)
        requires
            bytes@.len() == PEER_ID_LEN,
        ensures
            r@ == bytes@,
            r.wf(),
    {
        PeerId { bytes }
    }

    /// A fresh identifier with the same bytes.
    pub fn duplicate(&self) -> (r: PeerId)
        ensures
            r@ == self@,
    {
        let bytes = self.bytes.clone();
        proof {
            assert forall|i: int| 0 <= i < self.bytes@.len() implies bytes@[i] == self.bytes@[i] by {
                assert(cloned::<u8>(self.bytes@[i], bytes@[i]));
            }
            assert(bytes@ =~= self.bytes@);
        }
        PeerId { bytes }
    }
}

impl PartialEq for PeerId {
    fn eq(&self, other: &PeerId) -> (r: bool) {
        if self.bytes.len() != other.bytes.len() {
            return false;
        }
        let mut i: usize = 0;
        while i < self.bytes.len()
            invariant
                0 <= i <= self.bytes@.len(),
                self.bytes@.len() == other.bytes@.len(),
                forall|j: int| 0 <= j < i ==> self.bytes@[j] == other.bytes@[j],
            decreases self.bytes@.len() - i,
        {
            if self.bytes[i] != other.bytes[i] {
                return false;
            }
            i += 1;
        }
        proof {
            assert(self.bytes@ =~= other.bytes@);
        }
        true
    }
}

impl Eq for PeerId {
}

impl vstd::std_specs::cmp::PartialEqSpecImpl for PeerId {
    open spec fn obeys_eq_spec() -> bool {
        true
    }

    open spec fn eq_spec(&self, other: &PeerId) -> bool {
        self.bytes@ == other.bytes@
    }
}

/// An opaque signaling payload: SDP offer/answer or ICE candidate data,
/// interpreted only by the WebRTC engine.
pub struct PeerSignal {
    pub bytes: Vec<u8>,
}

impl View for PeerSignal {
    type V = Seq<u8>;

    open spec fn view(&self) -> Seq<u8> {
        self.bytes@
    }
}

impl PeerSignal {
    pub fn new(bytes: Vec<u8>) -> (r: PeerSignal)
        ensures
            r@ == bytes@,
    {
        PeerSignal { bytes }
    }

    /// A fresh payload with the same bytes.
    pub fn duplicate(&self) -> (r: PeerSignal)
        ensures
            r@ == self@,
    {
        let bytes = self.bytes.clone();
        proof {
            assert forall|i: int| 0 <= i < self.bytes@.len() implies bytes@[i] == self.bytes@[i] by {
                assert(cloned::<u8>(self.bytes@[i], bytes@[i]));
            }
            assert(bytes@ =~= self.bytes@);
        }
        PeerSignal { bytes }
    }
}

/// An opaque application packet. No framing is interpreted at this layer.
pub type Packet = Vec<u8>;

/// Outbound from the message loop to the signaling loop.
pub enum PeerRequest {
    Signal { receiver: PeerId, data: PeerSignal },
    KeepAlive,
}

/// Inbound to the message loop.
pub enum PeerEvent {
    IdAssigned(PeerId),
    NewPeer(PeerId),
    PeerLeft(PeerId),
    Signal { sender: PeerId, data: PeerSignal },
}

/// Connection state reported to the application for one peer.
#[derive(Clone, Copy, PartialEq, Eq, Structural, Debug)]
pub enum PeerState {
    Connected,
    Disconnected,
}

/// Errors of the signaling transport and loop.
#[derive(Clone, Copy, PartialEq, Eq, Structural, Debug)]
pub enum SignalingError {
    /// The transport could not be opened or was lost; fatal.
    ConnectionFailed,
    /// A non-text frame arrived; recoverable, the frame is skipped.
    UnknownFormat,
    /// Outbound message construction failed; fatal.
    Serialization,
    /// An internal queue closed while still in use; fatal.
    StreamClosed,
}

/// Errors of a per-channel packet send.
#[derive(Clone, Copy, PartialEq, Eq, Structural, Debug)]
pub enum MessagingError {
    ChannelClosed,
    SendFailed,
}

/// Per-data-channel parameters, fixed at socket construction.
pub struct ChannelConfig {
    /// Deliver packets in order.
    pub ordered: bool,
    /// Bound on retransmissions; `None` means fully reliable.
    pub max_retransmits: Option<u16>,
}

/// STUN/TURN configuration handed to the WebRTC engine.
pub struct RtcIceServerConfig {
    pub urls: Vec<String>,
    pub username: Option<String>,
    pub credential: Option<String>,
}

} // verus!
