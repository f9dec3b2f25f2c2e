use nostr_mesh_core::codec::{parse_event, parse_request, serialize_event, serialize_request};
use nostr_mesh_core::types::{PeerEvent, PeerId, PeerRequest, PeerSignal};

fn peer(b: u8) -> PeerId {
    PeerId { bytes: vec![b; 32] }
}

#[test]
fn keep_alive_notation_is_exact() {
    let s = serialize_request(&PeerRequest::KeepAlive);
    assert_eq!(s, "\"KeepAlive\"");
    assert!(matches!(parse_request(&s), Some(PeerRequest::KeepAlive)));
}

#[test]
fn signal_request_notation_is_exact() {
    let req = PeerRequest::Signal {
        receiver: peer(0xab),
        data: PeerSignal { bytes: vec![0x01, 0x02, 0x03] },
    };
    let s = serialize_request(&req);
    let hex32 = "ab".repeat(32);
    assert_eq!(
        s,
        format!("{{\"Signal\":{{\"receiver\":\"{}\",\"data\":\"010203\"}}}}", hex32)
    );
}

#[test]
fn signal_request_round_trip() {
    let req = PeerRequest::Signal {
        receiver: peer(0x5f),
        data: PeerSignal { bytes: vec![0x00, 0xff, 0x10] },
    };
    let s = serialize_request(&req);
    match parse_request(&s) {
        Some(PeerRequest::Signal { receiver, data }) => {
            assert_eq!(receiver.bytes, vec![0x5f; 32]);
            assert_eq!(data.bytes, vec![0x00, 0xff, 0x10]);
        }
        other => panic!("wrong parse: {:?}", other.is_some()),
    }
}

#[test]
fn signal_request_round_trip_empty_data() {
    let req = PeerRequest::Signal { receiver: peer(0x00), data: PeerSignal { bytes: vec![] } };
    let s = serialize_request(&req);
    match parse_request(&s) {
        Some(PeerRequest::Signal { receiver, data }) => {
            assert_eq!(receiver.bytes, vec![0x00; 32]);
            assert!(data.bytes.is_empty());
        }
        _ => panic!("signal with empty data must parse"),
    }
}

#[test]
fn event_notations_round_trip() {
    let cases = vec![
        PeerEvent::IdAssigned(peer(0x11)),
        PeerEvent::NewPeer(peer(0x22)),
        PeerEvent::PeerLeft(peer(0x33)),
        PeerEvent::Signal { sender: peer(0x44), data: PeerSignal { bytes: vec![9, 8, 7] } },
    ];
    for ev in cases {
        let s = serialize_event(&ev);
        let back = parse_event(&s).expect("canonical event must parse");
        match (&ev, &back) {
            (PeerEvent::IdAssigned(a), PeerEvent::IdAssigned(b)) => assert_eq!(a.bytes, b.bytes),
            (PeerEvent::NewPeer(a), PeerEvent::NewPeer(b)) => assert_eq!(a.bytes, b.bytes),
            (PeerEvent::PeerLeft(a), PeerEvent::PeerLeft(b)) => assert_eq!(a.bytes, b.bytes),
            (
                PeerEvent::Signal { sender: a, data: da },
                PeerEvent::Signal { sender: b, data: db },
            ) => {
                assert_eq!(a.bytes, b.bytes);
                assert_eq!(da.bytes, db.bytes);
            }
            _ => panic!("event variant changed by round trip"),
        }
    }
}

#[test]
fn new_peer_notation_is_exact() {
    let s = serialize_event(&PeerEvent::NewPeer(peer(0x01)));
    assert_eq!(s, format!("{{\"NewPeer\":\"{}\"}}", "01".repeat(32)));
}

#[test]
fn garbage_is_refused() {
    for s in [
        "",
        "null",
        "KeepAlive",
        "{\"Signal\":{}}",
        "{\"Signal\":{\"receiver\":\"zz\",\"data\":\"\"}}",
        "{\"NewPeer\":\"0101\"}",
        "{\"NewPeer\":\"zz\"}",
        "[1,2,3]",
        "{\"Signal\":{\"receiver\":\"0101\",\"data\":\"01\"}}",
    ] {
        assert!(parse_request(s).is_none(), "accepted request: {s}");
        assert!(parse_event(s).is_none(), "accepted event: {s}");
    }
}

#[test]
fn odd_hex_data_is_refused() {
    let hex32 = "ab".repeat(32);
    let s = format!("{{\"Signal\":{{\"receiver\":\"{}\",\"data\":\"012\"}}}}", hex32);
    assert!(parse_request(&s).is_none());
}

#[test]
fn an_event_is_no_request() {
    for ev in [
        PeerEvent::IdAssigned(peer(0x07)),
        PeerEvent::NewPeer(peer(0x07)),
        PeerEvent::PeerLeft(peer(0x07)),
        PeerEvent::Signal { sender: peer(0x07), data: PeerSignal { bytes: vec![1] } },
    ] {
        let s = serialize_event(&ev);
        assert!(parse_request(&s).is_none(), "event parsed as request: {s}");
    }
}

#[test]
fn a_signal_request_is_no_event() {
    let req = PeerRequest::Signal { receiver: peer(0x09), data: PeerSignal { bytes: vec![1] } };
    let s = serialize_request(&req);
    assert!(parse_event(&s).is_none());
}
