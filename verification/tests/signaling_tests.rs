use nostr::event::FinalizeEvent;
use nostr_mesh_core::codec::serialize_request;
use nostr_mesh_core::crypto::{
    derive_public_key, fresh_subscription_id, nip04_decrypt, nip04_encrypt, parse_relay_frame,
    RelayFrame,
};
use nostr_mesh_core::signaling::{
    handle_relay_frame, outbound_request_frame, signaling_startup, subscribe_frame, SignalingState,
};
use nostr_mesh_core::types::{PeerEvent, PeerId, PeerRequest, PeerSignal};

fn state_a() -> SignalingState {
    SignalingState::new(vec![1u8; 32]).expect("a valid secret key")
}

fn keypair_b() -> (Vec<u8>, Vec<u8>) {
    let sk = vec![2u8; 32];
    let pk = derive_public_key(&sk).expect("a valid secret key");
    (sk, pk)
}

#[test]
fn derived_key_matches_nostr() {
    let st = state_a();
    let keys = nostr::key::Keys::new(nostr::key::SecretKey::from_slice(&[1u8; 32]).unwrap());
    assert_eq!(st.public_key, keys.public_key().to_bytes().to_vec());
}

#[test]
fn startup_delivers_identity_first() {
    let st = state_a();
    let (frame, first_event) = signaling_startup(&st, "ab-1", 1000);
    assert_eq!(frame, "[\"REQ\",\"ab-1\",{\"kinds\":[4],\"since\":1000}]");
    assert!(matches!(first_event, PeerEvent::IdAssigned(p) if p.bytes == st.public_key));
}

#[test]
fn subscription_ids_are_fresh_and_well_formed() {
    let a = fresh_subscription_id();
    let b = fresh_subscription_id();
    assert_eq!(a.len(), 36);
    assert!(a.chars().all(|c| c.is_ascii_hexdigit() && !c.is_ascii_uppercase() || c == '-'));
    assert_ne!(a, b);
}

#[test]
fn subscribe_frame_is_a_valid_request() {
    let frame = subscribe_frame("00000000-0000-0000-0000-000000000000", 1234567890);
    let msg = nostr::message::ClientMessage::from_json(&frame).expect("a valid client message");
    match msg {
        nostr::message::ClientMessage::Req { filters, .. } => {
            assert_eq!(filters.len(), 1);
            assert!(frame.contains("\"kinds\":[4]"));
            assert!(frame.contains("\"since\":1234567890"));
        }
        _ => panic!("not a subscription frame"),
    }
}

#[test]
fn keep_alive_produces_no_relay_frame() {
    let st = state_a();
    let r = outbound_request_frame(&st, &PeerRequest::KeepAlive, 1000).unwrap();
    assert!(r.is_none());
}

#[test]
fn outbound_signal_is_a_valid_event_that_the_receiver_decrypts() {
    let st = state_a();
    let (sk_b, pk_b) = keypair_b();
    let req = PeerRequest::Signal {
        receiver: PeerId { bytes: pk_b.clone() },
        data: PeerSignal { bytes: vec![0xde, 0xad, 0xbe, 0xef] },
    };
    let frame = outbound_request_frame(&st, &req, 1700000000)
        .expect("valid keys")
        .expect("a signal produces a frame");
    let msg = nostr::message::ClientMessage::from_json(&frame).expect("a valid client message");
    let event = match msg {
        nostr::message::ClientMessage::Event(e) => e.into_owned(),
        _ => panic!("not an event frame"),
    };
    // identifier and signature check out
    event.verify().expect("well-formed id and signature");
    assert_eq!(event.kind.as_u16(), 4);
    assert_eq!(event.pubkey.to_bytes().to_vec(), st.public_key);
    assert_eq!(event.created_at.as_secs(), 1700000000);
    assert!(frame.contains("[\"t\",\"matchbox-nostr-1\"]"));
    // the receiver decrypts the envelope with the opposite keys
    let plain = nip04_decrypt(&sk_b, &st.public_key, &event.content)
        .expect("the receiver can decrypt");
    assert_eq!(plain, serialize_request(&req));
}

#[test]
fn self_echo_yields_nothing() {
    let st = state_a();
    let frame = RelayFrame::Event {
        sender: st.public_key.clone(),
        kind: 4,
        content: "whatever".to_string(),
    };
    assert!(handle_relay_frame(&st, &frame).is_empty());
}

#[test]
fn other_kinds_yield_nothing() {
    let st = state_a();
    let (_, pk_b) = keypair_b();
    let frame = RelayFrame::Event { sender: pk_b, kind: 1, content: "hello".to_string() };
    assert!(handle_relay_frame(&st, &frame).is_empty());
}

#[test]
fn inbound_signal_is_attributed_to_the_relay_sender() {
    let st = state_a();
    let (sk_b, pk_b) = keypair_b();
    // B addresses A with a signal envelope
    let envelope = serialize_request(&PeerRequest::Signal {
        receiver: PeerId { bytes: st.public_key.clone() },
        data: PeerSignal { bytes: vec![1, 2, 3] },
    });
    let content = nip04_encrypt(&sk_b, &st.public_key, &envelope).expect("valid keys");
    let frame = RelayFrame::Event { sender: pk_b.clone(), kind: 4, content };
    let events = handle_relay_frame(&st, &frame);
    assert_eq!(events.len(), 1);
    assert!(
        matches!(&events[0], PeerEvent::Signal { sender, data } if sender.bytes == pk_b && data.bytes == vec![1, 2, 3])
    );
}

#[test]
fn inbound_keep_alive_is_dropped() {
    let st = state_a();
    let (sk_b, pk_b) = keypair_b();
    let envelope = serialize_request(&PeerRequest::KeepAlive);
    let content = nip04_encrypt(&sk_b, &st.public_key, &envelope).expect("valid keys");
    let frame = RelayFrame::Event { sender: pk_b, kind: 4, content };
    assert!(handle_relay_frame(&st, &frame).is_empty());
}

#[test]
fn inbound_peer_event_is_forwarded() {
    let st = state_a();
    let (sk_b, pk_b) = keypair_b();
    let envelope =
        nostr_mesh_core::codec::serialize_event(&PeerEvent::NewPeer(PeerId { bytes: vec![9; 32] }));
    let content = nip04_encrypt(&sk_b, &st.public_key, &envelope).expect("valid keys");
    let frame = RelayFrame::Event { sender: pk_b, kind: 4, content };
    let events = handle_relay_frame(&st, &frame);
    assert_eq!(events.len(), 1);
    assert!(matches!(&events[0], PeerEvent::NewPeer(p) if p.bytes == vec![9; 32]));
}

#[test]
fn hostile_traffic_yields_nothing() {
    let st = state_a();
    let (sk_b, pk_b) = keypair_b();
    // undecryptable content
    let frame = RelayFrame::Event {
        sender: pk_b.clone(),
        kind: 4,
        content: "AAAAAAAAAAAAAAAAAAAAAA==?iv=AAAAAAAAAAAAAAAAAAAAAA==".to_string(),
    };
    assert!(handle_relay_frame(&st, &frame).is_empty());
    // valid decryption, garbage envelope
    let content = nip04_encrypt(&sk_b, &st.public_key, "no envelope at all").expect("valid keys");
    let frame = RelayFrame::Event { sender: pk_b, kind: 4, content };
    assert!(handle_relay_frame(&st, &frame).is_empty());
    // notices and other relay chatter
    assert!(handle_relay_frame(&st, &RelayFrame::Notice("hi".to_string())).is_empty());
    assert!(handle_relay_frame(&st, &RelayFrame::Other).is_empty());
}

#[test]
fn relay_frames_are_reduced_to_their_fields() {
    // a round trip through a real relay EVENT frame
    let keys = nostr::key::Keys::new(nostr::key::SecretKey::from_slice(&[3u8; 32]).unwrap());
    let event = nostr::event::EventBuilder::new(nostr::event::Kind::from_u16(4), "ciphertext")
        .finalize(&keys)
        .expect("signing");
    let relay_json = nostr::message::RelayMessage::event(
        nostr::message::SubscriptionId::new("s"),
        event,
    )
    .as_json();
    match parse_relay_frame(&relay_json) {
        Some(RelayFrame::Event { sender, kind, content }) => {
            assert_eq!(sender, keys.public_key().to_bytes().to_vec());
            assert_eq!(kind, 4);
            assert_eq!(content, "ciphertext");
        }
        _ => panic!("event frame not recognized"),
    }
    assert!(parse_relay_frame("not json").is_none());
    match parse_relay_frame("[\"NOTICE\",\"hello\"]") {
        Some(RelayFrame::Notice(m)) => assert_eq!(m, "hello"),
        _ => panic!("notice not recognized"),
    }
}

#[test]
fn encryption_round_trip_both_directions() {
    let st = state_a();
    let (sk_b, pk_b) = keypair_b();
    let plain = "{\"Signal\":{\"receiver\":\"00\",\"data\":\"00\"}}";
    let cipher = nip04_encrypt(&st.secret_key, &pk_b, plain).expect("valid keys");
    // the sender can read back its own message
    assert_eq!(nip04_decrypt(&st.secret_key, &pk_b, &cipher).unwrap(), plain);
    // and so can the receiver, with the opposite keys
    assert_eq!(nip04_decrypt(&sk_b, &st.public_key, &cipher).unwrap(), plain);
}

#[test]
fn since_zero_is_written_as_zero() {
    let frame = subscribe_frame("0", 0);
    assert_eq!(frame, "[\"REQ\",\"0\",{\"kinds\":[4],\"since\":0}]");
}

#[test]
fn an_invalid_receiver_key_is_a_serialization_error() {
    let st = state_a();
    // all-zero bytes are no point on the curve, so encryption must refuse them
    let req = PeerRequest::Signal {
        receiver: PeerId { bytes: vec![0u8; 32] },
        data: PeerSignal { bytes: vec![1] },
    };
    match outbound_request_frame(&st, &req, 1000) {
        Err(e) => assert_eq!(e, nostr_mesh_core::types::SignalingError::Serialization),
        Ok(_) => panic!("an invalid receiver key must be refused"),
    }
}

#[test]
fn since_max_is_written_in_full() {
    let frame = subscribe_frame("0", u64::MAX);
    assert_eq!(frame, "[\"REQ\",\"0\",{\"kinds\":[4],\"since\":18446744073709551615}]");
}
