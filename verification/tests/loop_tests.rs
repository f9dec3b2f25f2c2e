use nostr_mesh_core::message_loop::{
    message_loop_step, LoopAction, LoopInput, LoopOutcome, MessageLoopState,
};
use nostr_mesh_core::types::{PeerEvent, PeerId, PeerRequest, PeerSignal, PeerState};

fn peer(b: u8) -> PeerId {
    PeerId { bytes: vec![b; 32] }
}

#[test]
fn id_assigned_is_published() {
    let mut st = MessageLoopState::new(1, true);
    let (actions, outcome) = message_loop_step(&mut st, LoopInput::Event(PeerEvent::IdAssigned(peer(1))));
    assert!(matches!(outcome, LoopOutcome::Continue));
    assert_eq!(actions.len(), 1);
    assert!(matches!(&actions[0], LoopAction::PublishId(p) if p.bytes == vec![1; 32]));
    assert!(matches!(&st.local_id, Some(p) if p.bytes == vec![1; 32]));
}

#[test]
fn new_peer_starts_one_offer() {
    let mut st = MessageLoopState::new(1, true);
    let (actions, outcome) = message_loop_step(&mut st, LoopInput::Event(PeerEvent::NewPeer(peer(2))));
    assert!(matches!(outcome, LoopOutcome::Continue));
    assert_eq!(actions.len(), 1);
    assert!(matches!(&actions[0], LoopAction::StartOfferHandshake(p) if p.bytes == vec![2; 32]));
    assert_eq!(st.pending_peers.len(), 1);
}

#[test]
fn repeated_new_peer_starts_no_second_handshake() {
    let mut st = MessageLoopState::new(1, true);
    message_loop_step(&mut st, LoopInput::Event(PeerEvent::NewPeer(peer(2))));
    let (actions, _) = message_loop_step(&mut st, LoopInput::Event(PeerEvent::NewPeer(peer(2))));
    assert!(actions.is_empty());
    assert_eq!(st.pending_peers.len(), 1);
}

#[test]
fn new_peer_after_connect_starts_no_second_handshake() {
    let mut st = MessageLoopState::new(1, true);
    message_loop_step(&mut st, LoopInput::Event(PeerEvent::NewPeer(peer(2))));
    message_loop_step(&mut st, LoopInput::HandshakeComplete(peer(2)));
    let (actions, _) = message_loop_step(&mut st, LoopInput::Event(PeerEvent::NewPeer(peer(2))));
    assert!(actions.is_empty());
}

#[test]
fn first_signal_from_unknown_accepts_then_forwards() {
    let mut st = MessageLoopState::new(1, true);
    let input = LoopInput::Event(PeerEvent::Signal {
        sender: peer(3),
        data: PeerSignal { bytes: vec![7] },
    });
    let (actions, _) = message_loop_step(&mut st, input);
    assert_eq!(actions.len(), 2);
    assert!(matches!(&actions[0], LoopAction::StartAcceptHandshake(p) if p.bytes == vec![3; 32]));
    assert!(
        matches!(&actions[1], LoopAction::ForwardSignal { peer, data } if peer.bytes == vec![3; 32] && data.bytes == vec![7])
    );
}

#[test]
fn later_signal_only_forwards() {
    let mut st = MessageLoopState::new(1, true);
    message_loop_step(
        &mut st,
        LoopInput::Event(PeerEvent::Signal { sender: peer(3), data: PeerSignal { bytes: vec![7] } }),
    );
    let (actions, _) = message_loop_step(
        &mut st,
        LoopInput::Event(PeerEvent::Signal { sender: peer(3), data: PeerSignal { bytes: vec![8] } }),
    );
    assert_eq!(actions.len(), 1);
    assert!(
        matches!(&actions[0], LoopAction::ForwardSignal { peer, data } if peer.bytes == vec![3; 32] && data.bytes == vec![8])
    );
}

#[test]
fn handshake_completion_reports_connected_and_starts_session() {
    let mut st = MessageLoopState::new(1, true);
    message_loop_step(&mut st, LoopInput::Event(PeerEvent::NewPeer(peer(4))));
    let (actions, _) = message_loop_step(&mut st, LoopInput::HandshakeComplete(peer(4)));
    assert_eq!(actions.len(), 2);
    assert!(
        matches!(&actions[0], LoopAction::ReportState { peer, state } if peer.bytes == vec![4; 32] && *state == PeerState::Connected)
    );
    assert!(matches!(&actions[1], LoopAction::StartPeerLoop(p) if p.bytes == vec![4; 32]));
}

#[test]
fn packet_goes_to_the_connected_peer_channel() {
    let mut st = MessageLoopState::new(2, true);
    message_loop_step(&mut st, LoopInput::Event(PeerEvent::NewPeer(peer(5))));
    message_loop_step(&mut st, LoopInput::HandshakeComplete(peer(5)));
    let (actions, outcome) = message_loop_step(
        &mut st,
        LoopInput::PacketOut { channel: 0, peer: peer(5), packet: vec![0xaa, 0xbb] },
    );
    assert!(matches!(outcome, LoopOutcome::Continue));
    assert_eq!(actions.len(), 1);
    assert!(
        matches!(&actions[0], LoopAction::SendPacket { peer, channel, packet } if peer.bytes == vec![5; 32] && *channel == 0 && *packet == vec![0xaa, 0xbb])
    );
}

#[test]
fn packet_for_unknown_peer_is_fatal() {
    let mut st = MessageLoopState::new(2, true);
    let (actions, outcome) = message_loop_step(
        &mut st,
        LoopInput::PacketOut { channel: 0, peer: peer(6), packet: vec![1] },
    );
    assert!(matches!(outcome, LoopOutcome::Fatal));
    assert!(actions.is_empty());
}

#[test]
fn packet_on_missing_channel_is_fatal() {
    let mut st = MessageLoopState::new(1, true);
    message_loop_step(&mut st, LoopInput::Event(PeerEvent::NewPeer(peer(5))));
    message_loop_step(&mut st, LoopInput::HandshakeComplete(peer(5)));
    let (_, outcome) = message_loop_step(
        &mut st,
        LoopInput::PacketOut { channel: 1, peer: peer(5), packet: vec![1] },
    );
    assert!(matches!(outcome, LoopOutcome::Fatal));
}

#[test]
fn keep_alive_tick_enqueues_and_rearms() {
    let mut st = MessageLoopState::new(1, true);
    let (actions, outcome) = message_loop_step(&mut st, LoopInput::KeepAliveTick);
    assert!(matches!(outcome, LoopOutcome::Continue));
    assert_eq!(actions.len(), 2);
    assert!(matches!(&actions[0], LoopAction::EnqueueRequest(PeerRequest::KeepAlive)));
    assert!(matches!(&actions[1], LoopAction::RearmTimer));
}

#[test]
fn peer_left_after_connect_reports_disconnected() {
    let mut st = MessageLoopState::new(1, true);
    message_loop_step(&mut st, LoopInput::Event(PeerEvent::NewPeer(peer(7))));
    message_loop_step(&mut st, LoopInput::HandshakeComplete(peer(7)));
    let (actions, _) = message_loop_step(&mut st, LoopInput::Event(PeerEvent::PeerLeft(peer(7))));
    assert_eq!(actions.len(), 1);
    assert!(
        matches!(&actions[0], LoopAction::ReportState { peer, state } if peer.bytes == vec![7; 32] && *state == PeerState::Disconnected)
    );
}

#[test]
fn peer_left_before_connect_reports_nothing() {
    let mut st = MessageLoopState::new(1, true);
    let (actions, _) = message_loop_step(&mut st, LoopInput::Event(PeerEvent::PeerLeft(peer(7))));
    assert!(actions.is_empty());
}

#[test]
fn session_end_after_connect_reports_disconnected() {
    let mut st = MessageLoopState::new(1, true);
    message_loop_step(&mut st, LoopInput::Event(PeerEvent::NewPeer(peer(8))));
    message_loop_step(&mut st, LoopInput::HandshakeComplete(peer(8)));
    let (actions, _) = message_loop_step(&mut st, LoopInput::PeerLoopComplete(peer(8)));
    assert_eq!(actions.len(), 1);
    assert!(
        matches!(&actions[0], LoopAction::ReportState { peer, state } if peer.bytes == vec![8; 32] && *state == PeerState::Disconnected)
    );
}

#[test]
fn disconnect_is_reported_once() {
    // a departure and a later session end yield one report, not two
    let mut st = MessageLoopState::new(1, true);
    message_loop_step(&mut st, LoopInput::Event(PeerEvent::NewPeer(peer(8))));
    message_loop_step(&mut st, LoopInput::HandshakeComplete(peer(8)));
    let (first, _) = message_loop_step(&mut st, LoopInput::Event(PeerEvent::PeerLeft(peer(8))));
    assert_eq!(first.len(), 1);
    let (second, _) = message_loop_step(&mut st, LoopInput::PeerLoopComplete(peer(8)));
    assert!(second.is_empty());
}

#[test]
fn second_handshake_completion_is_ignored() {
    let mut st = MessageLoopState::new(1, true);
    message_loop_step(&mut st, LoopInput::Event(PeerEvent::NewPeer(peer(4))));
    message_loop_step(&mut st, LoopInput::HandshakeComplete(peer(4)));
    let (actions, _) = message_loop_step(&mut st, LoopInput::HandshakeComplete(peer(4)));
    assert!(actions.is_empty());
}

#[test]
fn signal_after_connect_is_dropped() {
    // the handshake is over, so nothing can consume the signal
    let mut st = MessageLoopState::new(1, true);
    message_loop_step(&mut st, LoopInput::Event(PeerEvent::NewPeer(peer(3))));
    message_loop_step(&mut st, LoopInput::HandshakeComplete(peer(3)));
    let (actions, _) = message_loop_step(
        &mut st,
        LoopInput::Event(PeerEvent::Signal { sender: peer(3), data: PeerSignal { bytes: vec![7] } }),
    );
    assert!(actions.is_empty());
}

#[test]
fn socket_drop_exits_cleanly() {
    let mut st = MessageLoopState::new(1, true);
    let (actions, outcome) = message_loop_step(&mut st, LoopInput::OutboundClosed);
    assert!(actions.is_empty());
    assert!(matches!(outcome, LoopOutcome::Exit));
    let (actions, outcome) = message_loop_step(&mut st, LoopInput::AllSourcesDone);
    assert!(actions.is_empty());
    assert!(matches!(outcome, LoopOutcome::Exit));
}

#[test]
fn connected_once_then_disconnected_in_a_whole_run() {
    // one peer's full life: offer, connect, session end
    let mut st = MessageLoopState::new(1, true);
    let inputs = vec![
        LoopInput::Event(PeerEvent::IdAssigned(peer(1))),
        LoopInput::Event(PeerEvent::NewPeer(peer(9))),
        LoopInput::HandshakeComplete(peer(9)),
        LoopInput::PeerLoopComplete(peer(9)),
        LoopInput::OutboundClosed,
    ];
    let mut connects = 0;
    let mut disconnects = 0;
    let mut connect_seen_before_disconnect = true;
    for input in inputs {
        let (actions, _) = message_loop_step(&mut st, input);
        for a in &actions {
            if let LoopAction::ReportState { peer, state } = a {
                if peer.bytes == vec![9; 32] {
                    match state {
                        PeerState::Connected => connects += 1,
                        PeerState::Disconnected => {
                            disconnects += 1;
                            if connects == 0 {
                                connect_seen_before_disconnect = false;
                            }
                        }
                    }
                }
            }
        }
    }
    assert_eq!(connects, 1);
    assert_eq!(disconnects, 1);
    assert!(connect_seen_before_disconnect);
}

#[test]
fn peer_ids_compare_by_bytes() {
    assert!(peer(3) == peer(3));
    assert!(peer(3) != peer(4));
    let longer = PeerId { bytes: vec![3; 33] };
    assert!(peer(3) != longer);
    assert!(peer(3).duplicate() == peer(3));
}
