use vstd::prelude::*;

use crate::types::{Packet, PeerEvent, PeerId, PeerRequest, PeerSignal, PeerState};

verus! {

/// State owned by the message loop. Each peer is in at most one lifecycle
/// state at any time: awaiting a handshake, established, or terminated.
/// A handshake entry lives exactly as long as the handshake: it is created
/// when the peer becomes pending and dropped when the handshake completes.
pub struct MessageLoopState {
    /// Number of data channels per peer, fixed at construction.
    pub channel_count: usize,
    /// Whether a keep-alive timer is armed at all.
    pub keep_alive_enabled: bool,
    /// Peers with an in-flight handshake and a live handshake-signal entry.
    pub pending_peers: Vec<PeerId>,
    /// Peers whose data channels are installed, i.e. reported `Connected`.
    pub connected_peers: Vec<PeerId>,
    /// Peers reported `Disconnected` after their session ended or they left.
    pub terminated_peers: Vec<PeerId>,
    /// The local identity, once assigned by the signaling loop.
    pub local_id: Option<PeerId>,
}

/// One thing the surrounding loop observed: a timer tick, a signaling event,
/// a completed handshake or session, or an application packet.
pub enum LoopInput {
    /// The keep-alive timer fired.
    KeepAliveTick,
    /// A `PeerEvent` arrived from the signaling loop.
    Event(PeerEvent),
    /// The event channel from the signaling loop closed.
    EventsClosed,
    /// A handshake finished for this peer; its data channels are ready.
    HandshakeComplete(PeerId),
    /// The per-peer session loop finished for this peer.
    PeerLoopComplete(PeerId),
    /// The application submitted a packet on an outbound channel.
    PacketOut { channel: usize, peer: PeerId, packet: Packet },
    /// All outbound application channels closed: the socket was dropped.
    OutboundClosed,
    /// Every source the loop selects over has completed.
    AllSourcesDone,
}

/// One effect the surrounding loop must perform.
pub enum LoopAction {
    /// Enqueue a request toward the signaling loop.
    EnqueueRequest(PeerRequest),
    /// Rearm the keep-alive timer one interval from now.
    RearmTimer,
    /// Publish the local identity on the one-shot identity channel.
    PublishId(PeerId),
    /// Start an offering handshake toward this peer.
    StartOfferHandshake(PeerId),
    /// Start an accepting handshake toward this peer.
    StartAcceptHandshake(PeerId),
    /// Hand an inbound signal to this peer's in-flight handshake.
    ForwardSignal { peer: PeerId, data: PeerSignal },
    /// Report a connection-state change to the application.
    ReportState { peer: PeerId, state: PeerState },
    /// Start the per-peer session loop for this peer, dropping its
    /// handshake-signal entry.
    StartPeerLoop(PeerId),
    /// Hand a packet to this peer's data channel with this index.
    SendPacket { peer: PeerId, channel: usize, packet: Packet },
}

/// What the loop does after performing the actions of a step.
#[derive(Clone, Copy, PartialEq, Eq, Structural, Debug)]
pub enum LoopOutcome {
    /// Keep looping.
    Continue,
    /// Exit cleanly.
    Exit,
    /// A packet was addressed to a peer or channel that was never reported
    /// `Connected`: a programmer error; the loop aborts.
    Fatal,
}

/// Whether some identifier in the sequence has these bytes.
pub open spec fn contains_id(s: Seq<PeerId>, id: Seq<u8>) -> bool {
    exists|i: int| 0 <= i < s.len() && s[i]@ == id
}

/// No two identifiers in the sequence have the same bytes.
pub open spec fn ids_unique(s: Seq<PeerId>) -> bool {
    forall|i: int, j: int| 0 <= i < j < s.len() ==> s[i]@ != s[j]@
}

/// The identifier bytes a sequence holds, as a set.
pub open spec fn id_set(s: Seq<PeerId>) -> Set<Seq<u8>> {
    Set::new(|x: Seq<u8>| contains_id(s, x))
}

/// The mathematical image of the loop state: which peers await a handshake,
/// are established, or are terminated, and the local identity.
#[verifier::ext_equal]
pub struct LoopModel {
    pub pending: Set<Seq<u8>>,
    pub connected: Set<Seq<u8>>,
    pub terminated: Set<Seq<u8>>,
    pub local: Option<Seq<u8>>,
}

impl LoopModel {
    /// The peer is in some lifecycle state.
    pub open spec fn known(self, id: Seq<u8>) -> bool {
        self.pending.contains(id) || self.connected.contains(id) || self.terminated.contains(id)
    }

    /// Each peer is in at most one lifecycle state.
    pub open spec fn wf(self) -> bool {
        &&& forall|x: Seq<u8>| #[trigger]
            self.pending.contains(x) ==> !self.connected.contains(x) && !self.terminated.contains(
                x,
            )
        &&& forall|x: Seq<u8>| #[trigger] self.connected.contains(x) ==> !self.terminated.contains(x)
    }
}

impl MessageLoopState {
    pub open spec fn model(&self) -> LoopModel {
        LoopModel {
            pending: id_set(self.pending_peers@),
            connected: id_set(self.connected_peers@),
            terminated: id_set(self.terminated_peers@),
            local: match self.local_id {
                Some(p) => Some(p@),
                None => None,
            },
        }
    }

    /// Key sets behave as maps, and the lifecycle states are disjoint.
    pub open spec fn wf(&self) -> bool {
        &&& ids_unique(self.pending_peers@)
        &&& ids_unique(self.connected_peers@)
        &&& ids_unique(self.terminated_peers@)
        &&& self.model().wf()
    }

    pub fn new(channel_count: usize, keep_alive_enabled: bool) -> (r: MessageLoopState)
        ensures
            r.wf(),
            r.channel_count == channel_count,
            r.keep_alive_enabled == keep_alive_enabled,
            r.model().pending =~= Set::<Seq<u8>>::empty(),
            r.model().connected =~= Set::<Seq<u8>>::empty(),
            r.model().terminated =~= Set::<Seq<u8>>::empty(),
            r.local_id is None,
    {
        MessageLoopState {
            channel_count,
            keep_alive_enabled,
            pending_peers: Vec::new(),
            connected_peers: Vec::new(),
            terminated_peers: Vec::new(),
            local_id: None,
        }
    }
}

/// Whether the sequence holds an identifier with these bytes.
fn find_id(v: &Vec<PeerId>, id: &PeerId) -> (r: bool)
    ensures
        r == contains_id(v@, id@),
{
    let mut i: usize = 0;
    while i < v.len()
        invariant
            0 <= i <= v@.len(),
            forall|j: int| 0 <= j < i ==> v@[j]@ != id@,
        decreases v@.len() - i,
    {
        if v[i] == *id {
            return true;
        }
        i += 1;
    }
    false
}

/// Insert with map-key semantics: if an identifier with these bytes is
/// already present the set is unchanged, else it is appended.
fn insert_id(v: &mut Vec<PeerId>, id: &PeerId)
    ensures
        forall|x: Seq<u8>| contains_id(final(v)@, x) <==> contains_id(old(v)@, x) || x == id@,
        ids_unique(old(v)@) ==> ids_unique(final(v)@),
{
    if !find_id(v, id) {
        let ghost pre = v@;
        v.push(id.duplicate());
        proof {
            assert forall|x: Seq<u8>|
                contains_id(final(v)@, x) <==> contains_id(pre, x) || x == id@ by {
                if contains_id(pre, x) {
                    let i = choose|i: int| 0 <= i < pre.len() && pre[i]@ == x;
                    assert(final(v)@[i]@ == x);
                }
                if x == id@ {
                    assert(final(v)@[pre.len() as int]@ == x);
                }
            }
        }
    }
}

/// Remove the identifier with these bytes, if present.
fn remove_id(v: &mut Vec<PeerId>, id: &PeerId)
    requires
        ids_unique(old(v)@),
    ensures
        ids_unique(final(v)@),
        forall|x: Seq<u8>| contains_id(final(v)@, x) <==> contains_id(old(v)@, x) && x != id@,
{
    let mut i: usize = 0;
    while i < v.len()
        invariant
            0 <= i <= v@.len(),
            v@ == old(v)@,
            ids_unique(v@),
            forall|j: int| 0 <= j < i ==> v@[j]@ != id@,
        decreases v@.len() - i,
    {
        if v[i] == *id {
            let ghost pre = v@;
            v.remove(i);
            proof {
                pre.remove_ensures(i as int);
                assert(v@ == pre.remove(i as int));
                assert(pre[i as int]@ == id@);
                assert forall|a: int, b: int| 0 <= a < b < v@.len() implies v@[a]@ != v@[b]@ by {
                    let a2: int = if a < i { a } else { a + 1 };
                    let b2: int = if b < i { b } else { b + 1 };
                    assert(v@[a] == pre[a2]);
                    assert(v@[b] == pre[b2]);
                    assert(a2 < b2 < pre.len());
                    assert(pre[a2]@ != pre[b2]@);
                }
                assert forall|x: Seq<u8>|
                    contains_id(v@, x) <==> contains_id(pre, x) && x != id@ by {
                    if contains_id(v@, x) {
                        let j = choose|j: int| 0 <= j < v@.len() && v@[j]@ == x;
                        if j < i {
                            assert(v@[j] == pre[j]);
                            assert(pre[j]@ != pre[i as int]@);
                            assert(x != id@);
                        } else {
                            assert(v@[j] == pre[j + 1]);
                            assert(pre[i as int]@ != pre[j + 1]@);
                            assert(x != id@);
                        }
                    }
                    if contains_id(pre, x) && x != id@ {
                        let j = choose|j: int| 0 <= j < pre.len() && pre[j]@ == x;
                        if j < i {
                            assert(v@[j] == pre[j]);
                            assert(v@[j]@ == x);
                        } else {
                            assert(v@[j - 1] == pre[j]);
                            assert(v@[j - 1]@ == x);
                        }
                    }
                }
            }
            return;
        }
        i += 1;
    }
}

/// How many `Connected` reports for this identifier the action list holds.
pub open spec fn count_connects(actions: Seq<LoopAction>, id: Seq<u8>) -> nat
    decreases actions.len(),
{
    if actions.len() == 0 {
        0
    } else {
        (match actions[0] {
            LoopAction::ReportState { peer, state } => if peer@ == id && state
                == PeerState::Connected {
                1nat
            } else {
                0nat
            },
            _ => 0nat,
        }) + count_connects(actions.drop_first(), id)
    }
}

/// How many `Disconnected` reports for this identifier the action list holds.
pub open spec fn count_disconnects(actions: Seq<LoopAction>, id: Seq<u8>) -> nat
    decreases actions.len(),
{
    if actions.len() == 0 {
        0
    } else {
        (match actions[0] {
            LoopAction::ReportState { peer, state } => if peer@ == id && state
                == PeerState::Disconnected {
                1nat
            } else {
                0nat
            },
            _ => 0nat,
        }) + count_disconnects(actions.drop_first(), id)
    }
}

/// The packets the action list hands to this peer's channel, in order.
pub open spec fn sent_packets(actions: Seq<LoopAction>, id: Seq<u8>, ch: int) -> Seq<Seq<u8>>
    decreases actions.len(),
{
    if actions.len() == 0 {
        Seq::empty()
    } else {
        (match actions[0] {
            LoopAction::SendPacket { peer, channel, packet } => if peer@ == id && channel == ch {
                seq![packet@]
            } else {
                Seq::empty()
            },
            _ => Seq::empty(),
        }) + sent_packets(actions.drop_first(), id, ch)
    }
}

/// The packets one input submits for this peer and channel.
pub open spec fn input_packets(input: LoopInput, id: Seq<u8>, ch: int) -> Seq<Seq<u8>> {
    match input {
        LoopInput::PacketOut { channel, peer, packet } => if peer@ == id && channel == ch {
            seq![packet@]
        } else {
            Seq::empty()
        },
        _ => Seq::empty(),
    }
}

/// How one observation moves the lifecycle sets: a new peer or a first signal
/// makes an unknown peer pending; a completed handshake makes a pending peer
/// connected; a departure or a finished session makes a connected peer
/// terminated; nothing else moves a peer.
pub open spec fn step_model(m: LoopModel, input: LoopInput) -> LoopModel {
    match input {
        LoopInput::Event(PeerEvent::IdAssigned(id)) => LoopModel { local: Some(id@), ..m },
        LoopInput::Event(PeerEvent::NewPeer(id)) => if m.known(id@) {
            m
        } else {
            LoopModel { pending: m.pending.insert(id@), ..m }
        },
        LoopInput::Event(PeerEvent::Signal { sender, data }) => if m.known(sender@) {
            m
        } else {
            LoopModel { pending: m.pending.insert(sender@), ..m }
        },
        LoopInput::Event(PeerEvent::PeerLeft(id)) => if m.connected.contains(id@) {
            LoopModel {
                connected: m.connected.remove(id@),
                terminated: m.terminated.insert(id@),
                ..m
            }
        } else {
            m
        },
        LoopInput::HandshakeComplete(id) => if m.pending.contains(id@) {
            LoopModel { pending: m.pending.remove(id@), connected: m.connected.insert(id@), ..m }
        } else {
            m
        },
        LoopInput::PeerLoopComplete(id) => if m.connected.contains(id@) {
            LoopModel {
                connected: m.connected.remove(id@),
                terminated: m.terminated.insert(id@),
                ..m
            }
        } else {
            m
        },
        _ => m,
    }
}

/// The `Connected` reports one observation produces in this state: one when a
/// handshake completes for a pending peer, none otherwise.
pub open spec fn step_connects(m: LoopModel, input: LoopInput, id: Seq<u8>) -> nat {
    match input {
        LoopInput::HandshakeComplete(p) => if p@ == id && m.pending.contains(p@) {
            1nat
        } else {
            0nat
        },
        _ => 0nat,
    }
}

/// The `Disconnected` reports one observation produces in this state: one when
/// a connected peer departs or its session ends, none otherwise.
pub open spec fn step_disconnects(m: LoopModel, input: LoopInput, id: Seq<u8>) -> nat {
    match input {
        LoopInput::Event(PeerEvent::PeerLeft(p)) => if p@ == id && m.connected.contains(p@) {
            1nat
        } else {
            0nat
        },
        LoopInput::PeerLoopComplete(p) => if p@ == id && m.connected.contains(p@) {
            1nat
        } else {
            0nat
        },
        _ => 0nat,
    }
}

/// One turn of the message loop: consume one observation, update the loop
/// state, and say which effects to perform, in order.
pub fn message_loop_step(state: &mut MessageLoopState, input: LoopInput) -> (r: (
    Vec<LoopAction>,
    LoopOutcome,
))
    requires
        old(state).wf(),
    ensures
        final(state).wf(),
        final(state).channel_count == old(state).channel_count,
        final(state).keep_alive_enabled == old(state).keep_alive_enabled,
        final(state).model() == step_model(old(state).model(), input),
        // exactly the reports and packet sends the observation calls for
        forall|id: Seq<u8>| #[trigger]
            count_connects(r.0@, id) == step_connects(old(state).model(), input, id),
        forall|id: Seq<u8>| #[trigger]
            count_disconnects(r.0@, id) == step_disconnects(old(state).model(), input, id),
        forall|id: Seq<u8>, ch: int|
            #[trigger] sent_packets(r.0@, id, ch) == if r.1 == LoopOutcome::Fatal {
                Seq::<Seq<u8>>::empty()
            } else {
                input_packets(input, id, ch)
            },
        // per-observation behavior
        match input {
            LoopInput::KeepAliveTick => {
                &&& r.1 == LoopOutcome::Continue
                &&& r.0@.len() == 2
                &&& r.0@[0] == LoopAction::EnqueueRequest(PeerRequest::KeepAlive)
                &&& r.0@[1] == LoopAction::RearmTimer
            },
            LoopInput::Event(PeerEvent::IdAssigned(id)) => {
                &&& r.1 == LoopOutcome::Continue
                &&& r.0@.len() == 1
                &&& r.0@[0] matches LoopAction::PublishId(p) && p@ == id@
            },
            LoopInput::Event(PeerEvent::NewPeer(id)) => {
                &&& r.1 == LoopOutcome::Continue
                &&& if old(state).model().known(id@) {
                    r.0@.len() == 0
                } else {
                    r.0@.len() == 1 && (r.0@[0] matches LoopAction::StartOfferHandshake(p) && p@
                        == id@)
                }
            },
            LoopInput::Event(PeerEvent::PeerLeft(id)) => {
                &&& r.1 == LoopOutcome::Continue
                &&& if old(state).model().connected.contains(id@) {
                    r.0@.len() == 1 && (r.0@[0] matches LoopAction::ReportState { peer, state: st }
                        && peer@ == id@ && st == PeerState::Disconnected)
                } else {
                    r.0@.len() == 0
                }
            },
            LoopInput::Event(PeerEvent::Signal { sender, data }) => {
                &&& r.1 == LoopOutcome::Continue
                &&& if old(state).model().pending.contains(sender@) {
                    // a live handshake entry: only forward
                    r.0@.len() == 1 && (r.0@[0] matches LoopAction::ForwardSignal { peer, data: d }
                        && peer@ == sender@ && d@ == data@)
                } else if old(state).model().connected.contains(sender@) || old(
                    state,
                ).model().terminated.contains(sender@) {
                    // no in-flight handshake to feed: the signal is dropped
                    r.0@.len() == 0
                } else {
                    // first contact: accept a handshake, then forward
                    &&& r.0@.len() == 2
                    &&& r.0@[0] matches LoopAction::StartAcceptHandshake(p) && p@ == sender@
                    &&& r.0@[1] matches LoopAction::ForwardSignal { peer, data: d } && peer@
                        == sender@ && d@ == data@
                }
            },
            LoopInput::EventsClosed => {
                &&& *final(state) == *old(state)
                &&& r.1 == LoopOutcome::Continue
                &&& r.0@.len() == 0
            },
            LoopInput::HandshakeComplete(id) => {
                &&& r.1 == LoopOutcome::Continue
                &&& if old(state).model().pending.contains(id@) {
                    &&& r.0@.len() == 2
                    &&& r.0@[0] matches LoopAction::ReportState { peer, state: st } && peer@ == id@
                        && st == PeerState::Connected
                    &&& r.0@[1] matches LoopAction::StartPeerLoop(p) && p@ == id@
                } else {
                    r.0@.len() == 0
                }
            },
            LoopInput::PeerLoopComplete(id) => {
                &&& r.1 == LoopOutcome::Continue
                &&& if old(state).model().connected.contains(id@) {
                    r.0@.len() == 1 && (r.0@[0] matches LoopAction::ReportState { peer, state: st }
                        && peer@ == id@ && st == PeerState::Disconnected)
                } else {
                    r.0@.len() == 0
                }
            },
            LoopInput::PacketOut { channel, peer, packet } => {
                if old(state).model().connected.contains(peer@) && channel < old(
                    state,
                ).channel_count {
                    &&& *final(state) == *old(state)
                    &&& r.1 == LoopOutcome::Continue
                    &&& r.0@.len() == 1
                    &&& r.0@[0] matches LoopAction::SendPacket {
                        peer: p,
                        channel: ch,
                        packet: pk,
                    } && p@ == peer@ && ch == channel && pk@ == packet@
                } else {
                    &&& *final(state) == *old(state)
                    &&& r.1 == LoopOutcome::Fatal
                    &&& r.0@.len() == 0
                }
            },
            LoopInput::OutboundClosed => {
                &&& *final(state) == *old(state)
                &&& r.1 == LoopOutcome::Exit
                &&& r.0@.len() == 0
            },
            LoopInput::AllSourcesDone => {
                &&& *final(state) == *old(state)
                &&& r.1 == LoopOutcome::Exit
                &&& r.0@.len() == 0
            },
        },
{
    proof {
        reveal_with_fuel(count_connects, 4);
        reveal_with_fuel(count_disconnects, 4);
        reveal_with_fuel(sent_packets, 4);
    }
    let ghost pre = state.model();
    let mut actions: Vec<LoopAction> = Vec::new();
    match input {
        LoopInput::KeepAliveTick => {
            actions.push(LoopAction::EnqueueRequest(PeerRequest::KeepAlive));
            actions.push(LoopAction::RearmTimer);
            (actions, LoopOutcome::Continue)
        },
        LoopInput::Event(PeerEvent::IdAssigned(id)) => {
            actions.push(LoopAction::PublishId(id.duplicate()));
            state.local_id = Some(id);
            proof {
                assert(state.model() =~= step_model(pre, input));
            }
            (actions, LoopOutcome::Continue)
        },
        LoopInput::Event(PeerEvent::NewPeer(id)) => {
            if !find_id(&state.pending_peers, &id) && !find_id(&state.connected_peers, &id)
                && !find_id(&state.terminated_peers, &id) {
                insert_id(&mut state.pending_peers, &id);
                actions.push(LoopAction::StartOfferHandshake(id));
                proof {
                    assert(state.model().pending =~= pre.pending.insert(
                        step_new_peer_id(input),
                    ));
                    assert(state.model() =~= step_model(pre, input));
                }
            }
            (actions, LoopOutcome::Continue)
        },
        LoopInput::Event(PeerEvent::PeerLeft(id)) => {
            if find_id(&state.connected_peers, &id) {
                remove_id(&mut state.connected_peers, &id);
                insert_id(&mut state.terminated_peers, &id);
                actions.push(LoopAction::ReportState { peer: id, state: PeerState::Disconnected });
                proof {
                    assert(state.model().connected =~= pre.connected.remove(
                        step_new_peer_id(input),
                    ));
                    assert(state.model().terminated =~= pre.terminated.insert(
                        step_new_peer_id(input),
                    ));
                    assert(state.model() =~= step_model(pre, input));
                }
            }
            (actions, LoopOutcome::Continue)
        },
        LoopInput::Event(PeerEvent::Signal { sender, data }) => {
            if find_id(&state.pending_peers, &sender) {
                actions.push(LoopAction::ForwardSignal { peer: sender, data });
            } else if find_id(&state.connected_peers, &sender) || find_id(
                &state.terminated_peers,
                &sender,
            ) {
                // the handshake is over; nothing can consume the signal
            } else {
                insert_id(&mut state.pending_peers, &sender);
                actions.push(LoopAction::StartAcceptHandshake(sender.duplicate()));
                actions.push(LoopAction::ForwardSignal { peer: sender, data });
                proof {
                    assert(state.model().pending =~= pre.pending.insert(
                        step_new_peer_id(input),
                    ));
                    assert(state.model() =~= step_model(pre, input));
                }
            }
            (actions, LoopOutcome::Continue)
        },
        LoopInput::EventsClosed => (actions, LoopOutcome::Continue),
        LoopInput::HandshakeComplete(id) => {
            if find_id(&state.pending_peers, &id) {
                remove_id(&mut state.pending_peers, &id);
                insert_id(&mut state.connected_peers, &id);
                actions.push(
                    LoopAction::ReportState { peer: id.duplicate(), state: PeerState::Connected },
                );
                actions.push(LoopAction::StartPeerLoop(id));
                proof {
                    assert(state.model().pending =~= pre.pending.remove(step_new_peer_id(input)));
                    assert(state.model().connected =~= pre.connected.insert(
                        step_new_peer_id(input),
                    ));
                    assert(state.model() =~= step_model(pre, input));
                }
            }
            (actions, LoopOutcome::Continue)
        },
        LoopInput::PeerLoopComplete(id) => {
            if find_id(&state.connected_peers, &id) {
                remove_id(&mut state.connected_peers, &id);
                insert_id(&mut state.terminated_peers, &id);
                actions.push(LoopAction::ReportState { peer: id, state: PeerState::Disconnected });
                proof {
                    assert(state.model().connected =~= pre.connected.remove(
                        step_new_peer_id(input),
                    ));
                    assert(state.model().terminated =~= pre.terminated.insert(
                        step_new_peer_id(input),
                    ));
                    assert(state.model() =~= step_model(pre, input));
                }
            }
            (actions, LoopOutcome::Continue)
        },
        LoopInput::PacketOut { channel, peer, packet } => {
            if find_id(&state.connected_peers, &peer) && channel < state.channel_count {
                actions.push(LoopAction::SendPacket { peer, channel, packet });
                (actions, LoopOutcome::Continue)
            } else {
                (actions, LoopOutcome::Fatal)
            }
        },
        LoopInput::OutboundClosed => (actions, LoopOutcome::Exit),
        LoopInput::AllSourcesDone => (actions, LoopOutcome::Exit),
    }
}

/// The loop state after a whole trace of observations.
pub open spec fn run_model(m: LoopModel, inputs: Seq<LoopInput>) -> LoopModel
    decreases inputs.len(),
{
    if inputs.len() == 0 {
        m
    } else {
        run_model(step_model(m, inputs[0]), inputs.drop_first())
    }
}

/// The `Connected` reports for one peer over a whole trace.
pub open spec fn run_connects(m: LoopModel, inputs: Seq<LoopInput>, id: Seq<u8>) -> nat
    decreases inputs.len(),
{
    if inputs.len() == 0 {
        0
    } else {
        step_connects(m, inputs[0], id) + run_connects(
            step_model(m, inputs[0]),
            inputs.drop_first(),
            id,
        )
    }
}

/// The `Disconnected` reports for one peer over a whole trace.
pub open spec fn run_disconnects(m: LoopModel, inputs: Seq<LoopInput>, id: Seq<u8>) -> nat
    decreases inputs.len(),
{
    if inputs.len() == 0 {
        0
    } else {
        step_disconnects(m, inputs[0], id) + run_disconnects(
            step_model(m, inputs[0]),
            inputs.drop_first(),
            id,
        )
    }
}

/// Whether the trace holds a departure or session end for this peer.
pub open spec fn has_disconnect_source(inputs: Seq<LoopInput>, id: Seq<u8>) -> bool
    decreases inputs.len(),
{
    if inputs.len() == 0 {
        false
    } else {
        (match inputs[0] {
            LoopInput::Event(PeerEvent::PeerLeft(p)) => p@ == id,
            LoopInput::PeerLoopComplete(p) => p@ == id,
            _ => false,
        }) || has_disconnect_source(inputs.drop_first(), id)
    }
}

/// Law: every observation keeps each peer in at most one lifecycle state.
pub proof fn lemma_step_model_wf(m: LoopModel, input: LoopInput)
    requires
        m.wf(),
    ensures
        step_model(m, input).wf(),
{
    let m2 = step_model(m, input);
    assert forall|x: Seq<u8>| #[trigger] m2.pending.contains(x) implies !m2.connected.contains(x)
        && !m2.terminated.contains(x) by {
        assert(m.pending.contains(x) ==> !m.connected.contains(x) && !m.terminated.contains(x));
    }
    assert forall|x: Seq<u8>| #[trigger] m2.connected.contains(x) implies !m2.terminated.contains(
        x,
    ) by {
        assert(m.pending.contains(x) ==> !m.connected.contains(x) && !m.terminated.contains(x));
        assert(m.connected.contains(x) ==> !m.terminated.contains(x));
    }
}

/// Law: exactly one connect per established peer — over any trace from a
/// well-formed state, `(p, Connected)` is reported at most once, and not at
/// all for a peer already established or terminated. Together with the step
/// contract, which equates each turn's reports with `step_connects`, this
/// bounds the reports of any run of the loop.
pub proof fn lemma_connected_at_most_once(m: LoopModel, inputs: Seq<LoopInput>, id: Seq<u8>)
    requires
        m.wf(),
    ensures
        run_connects(m, inputs, id) <= 1,
        m.connected.contains(id) || m.terminated.contains(id) ==> run_connects(m, inputs, id)
            == 0,
    decreases inputs.len(),
{
    if inputs.len() == 0 {
    } else {
        let m2 = step_model(m, inputs[0]);
        lemma_step_model_wf(m, inputs[0]);
        lemma_connected_at_most_once(m2, inputs.drop_first(), id);
        if m.connected.contains(id) || m.terminated.contains(id) {
            assert(m.pending.contains(id) ==> !m.connected.contains(id) && !m.terminated.contains(
                id,
            ));
            assert(step_connects(m, inputs[0], id) == 0);
            assert(m2.connected.contains(id) || m2.terminated.contains(id));
        }
        if step_connects(m, inputs[0], id) == 1 {
            assert(m2.connected.contains(id));
        }
    }
}

/// Law: one disconnect, after the connect — over any trace from a well-formed
/// state, `(p, Disconnected)` is reported at most once, never for a peer
/// already terminated, and, from a state where `p` is not yet established,
/// the disconnect reports never outnumber the connect reports: applied to
/// every prefix of a run from a fresh state, no `(p, Disconnected)` precedes
/// the `(p, Connected)`.
pub proof fn lemma_disconnect_per_connect(m: LoopModel, inputs: Seq<LoopInput>, id: Seq<u8>)
    requires
        m.wf(),
    ensures
        run_disconnects(m, inputs, id) <= 1,
        m.terminated.contains(id) ==> run_disconnects(m, inputs, id) == 0,
        !m.connected.contains(id) && !m.terminated.contains(id) ==> run_disconnects(m, inputs, id)
            <= run_connects(m, inputs, id),
    decreases inputs.len(),
{
    if inputs.len() == 0 {
    } else {
        let m2 = step_model(m, inputs[0]);
        lemma_step_model_wf(m, inputs[0]);
        lemma_disconnect_per_connect(m2, inputs.drop_first(), id);
        lemma_connected_at_most_once(m, inputs, id);
        assert(m.pending.contains(id) ==> !m.connected.contains(id) && !m.terminated.contains(id));
        assert(m.connected.contains(id) ==> !m.terminated.contains(id));
        if m.terminated.contains(id) {
            assert(step_disconnects(m, inputs[0], id) == 0);
            assert(m2.terminated.contains(id));
        }
    }
}

/// Law: eventual disconnect — once a peer is established, a departure or a
/// session end for it anywhere in the trace produces exactly one
/// `(p, Disconnected)` report.
pub proof fn lemma_disconnect_delivered(m: LoopModel, inputs: Seq<LoopInput>, id: Seq<u8>)
    requires
        m.wf(),
        m.connected.contains(id),
        has_disconnect_source(inputs, id),
    ensures
        run_disconnects(m, inputs, id) == 1,
    decreases inputs.len(),
{
    let m2 = step_model(m, inputs[0]);
    lemma_step_model_wf(m, inputs[0]);
    let src = match inputs[0] {
        LoopInput::Event(PeerEvent::PeerLeft(p)) => p@ == id,
        LoopInput::PeerLoopComplete(p) => p@ == id,
        _ => false,
    };
    assert(m.pending.contains(id) ==> !m.connected.contains(id));
    assert(m.connected.contains(id) ==> !m.terminated.contains(id));
    if src {
        assert(step_disconnects(m, inputs[0], id) == 1);
        assert(m2.terminated.contains(id));
        lemma_disconnect_per_connect(m2, inputs.drop_first(), id);
    } else {
        assert(step_disconnects(m, inputs[0], id) == 0);
        assert(m2.connected.contains(id));
        lemma_disconnect_delivered(m2, inputs.drop_first(), id);
    }
}

proof fn lemma_count_connects_concat(a: Seq<LoopAction>, b: Seq<LoopAction>, id: Seq<u8>)
    ensures
        count_connects(a + b, id) == count_connects(a, id) + count_connects(b, id),
    decreases a.len(),
{
    if a.len() == 0 {
        assert(a + b =~= b);
    } else {
        assert((a + b).drop_first() =~= a.drop_first() + b);
        lemma_count_connects_concat(a.drop_first(), b, id);
    }
}

proof fn lemma_count_disconnects_concat(a: Seq<LoopAction>, b: Seq<LoopAction>, id: Seq<u8>)
    ensures
        count_disconnects(a + b, id) == count_disconnects(a, id) + count_disconnects(b, id),
    decreases a.len(),
{
    if a.len() == 0 {
        assert(a + b =~= b);
    } else {
        assert((a + b).drop_first() =~= a.drop_first() + b);
        lemma_count_disconnects_concat(a.drop_first(), b, id);
    }
}

proof fn lemma_sent_packets_concat(a: Seq<LoopAction>, b: Seq<LoopAction>, id: Seq<u8>, ch: int)
    ensures
        sent_packets(a + b, id, ch) == sent_packets(a, id, ch) + sent_packets(b, id, ch),
    decreases a.len(),
{
    if a.len() == 0 {
        assert(a + b =~= b);
        assert(sent_packets(a, id, ch) + sent_packets(b, id, ch) =~= sent_packets(b, id, ch));
    } else {
        assert((a + b).drop_first() =~= a.drop_first() + b);
        lemma_sent_packets_concat(a.drop_first(), b, id, ch);
        assert(sent_packets(a + b, id, ch) =~= sent_packets(a, id, ch) + sent_packets(b, id, ch));
    }
}

/// Law: the reports of a whole run are the reports of its trace. `batches[k]`
/// is the action list `message_loop_step` returned for `inputs[k]`; the
/// hypothesis on each batch is the step contract itself, at the state the
/// fold reaches before turn `k`.
pub proof fn lemma_run_reports(
    m: LoopModel,
    batches: Seq<Seq<LoopAction>>,
    inputs: Seq<LoopInput>,
    id: Seq<u8>,
)
    requires
        batches.len() == inputs.len(),
        forall|k: int|
            0 <= k < inputs.len() ==> count_connects(#[trigger] batches[k], id) == step_connects(
                run_model(m, inputs.take(k)),
                inputs[k],
                id,
            ),
        forall|k: int|
            0 <= k < inputs.len() ==> count_disconnects(#[trigger] batches[k], id)
                == step_disconnects(run_model(m, inputs.take(k)), inputs[k], id),
    ensures
        count_connects(batches.flatten(), id) == run_connects(m, inputs, id),
        count_disconnects(batches.flatten(), id) == run_disconnects(m, inputs, id),
    decreases batches.len(),
{
    if batches.len() == 0 {
    } else {
        lemma_count_connects_concat(batches.first(), batches.drop_first().flatten(), id);
        lemma_count_disconnects_concat(batches.first(), batches.drop_first().flatten(), id);
        let m2 = step_model(m, inputs[0]);
        assert(inputs.take(0) =~= Seq::<LoopInput>::empty());
        assert forall|k: int| 0 <= k < inputs.len() - 1 implies run_model(m, inputs.take(k + 1))
            == run_model(m2, #[trigger] inputs.drop_first().take(k)) by {
            assert(inputs.take(k + 1)[0] == inputs[0]);
            assert(inputs.take(k + 1).drop_first() =~= inputs.drop_first().take(k));
        }
        assert forall|k: int| 0 <= k < inputs.len() - 1 implies count_connects(
            #[trigger] batches.drop_first()[k],
            id,
        ) == step_connects(
            run_model(m2, inputs.drop_first().take(k)),
            inputs.drop_first()[k],
            id,
        ) by {
            assert(batches.drop_first()[k] == batches[k + 1]);
            assert(inputs.drop_first()[k] == inputs[k + 1]);
        }
        assert forall|k: int| 0 <= k < inputs.len() - 1 implies count_disconnects(
            #[trigger] batches.drop_first()[k],
            id,
        ) == step_disconnects(
            run_model(m2, inputs.drop_first().take(k)),
            inputs.drop_first()[k],
            id,
        ) by {
            assert(batches.drop_first()[k] == batches[k + 1]);
            assert(inputs.drop_first()[k] == inputs[k + 1]);
        }
        lemma_run_reports(m2, batches.drop_first(), inputs.drop_first(), id);
    }
}

/// The packets a whole input trace submits for one peer and channel, in
/// submission order.
pub open spec fn total_input_packets(inputs: Seq<LoopInput>, id: Seq<u8>, ch: int) -> Seq<Seq<u8>>
    decreases inputs.len(),
{
    if inputs.len() == 0 {
        Seq::empty()
    } else {
        input_packets(inputs[0], id, ch) + total_input_packets(inputs.drop_first(), id, ch)
    }
}

/// Law: per-channel ordering — in a run in which no step aborted, the packets
/// handed to peer `p`'s channel `ch` are exactly the packets the application
/// submitted for `(p, ch)`, in submission order.
pub proof fn lemma_per_channel_order(
    batches: Seq<Seq<LoopAction>>,
    inputs: Seq<LoopInput>,
    id: Seq<u8>,
    ch: int,
)
    requires
        batches.len() == inputs.len(),
        forall|k: int|
            0 <= k < inputs.len() ==> sent_packets(#[trigger] batches[k], id, ch) == input_packets(
                inputs[k],
                id,
                ch,
            ),
    ensures
        sent_packets(batches.flatten(), id, ch) == total_input_packets(inputs, id, ch),
    decreases batches.len(),
{
    if batches.len() == 0 {
        assert(sent_packets(batches.flatten(), id, ch) =~= total_input_packets(inputs, id, ch));
    } else {
        lemma_sent_packets_concat(batches.first(), batches.drop_first().flatten(), id, ch);
        lemma_per_channel_order(batches.drop_first(), inputs.drop_first(), id, ch);
        assert(sent_packets(batches.flatten(), id, ch) =~= total_input_packets(inputs, id, ch));
    }
}

/// The identifier an observation is about, where it has one.
pub open spec fn step_new_peer_id(input: LoopInput) -> Seq<u8> {
    match input {
        LoopInput::Event(PeerEvent::IdAssigned(id)) => id@,
        LoopInput::Event(PeerEvent::NewPeer(id)) => id@,
        LoopInput::Event(PeerEvent::PeerLeft(id)) => id@,
        LoopInput::Event(PeerEvent::Signal { sender, data }) => sender@,
        LoopInput::HandshakeComplete(id) => id@,
        LoopInput::PeerLoopComplete(id) => id@,
        _ => Seq::empty(),
    }
}

} // verus!
