use vstd::prelude::*;

use crate::codec::{
    event_model, req_model, serialize_request, spec_parse_event, spec_parse_request,
    spec_ser_request, EventModel, ReqModel,
};
use crate::crypto::{
    compute_event_id, nip04_decrypt, nip04_encrypt, nip04_keys_ok, nip04_plaintext, nip04_text,
    nostr_event_id, pk_of_sk, schnorr_sign, schnorr_valid, uuid_char, RelayFrame,
};
use crate::encoding::{append_dec, append_hex, dec_seq, hex_seq};
use crate::types::{bytes_eq, dup_bytes, PeerEvent, PeerId, PeerRequest, SignalingError};

verus! {

/// The event kind of an encrypted direct message.
pub const DIRECT_MESSAGE_KIND: u16 = 4;

/// The hashtag every outbound direct message carries, so relays and peers can
/// filter the mesh's traffic.
pub open spec fn room_tag() -> Seq<char> {
    "matchbox-nostr-1"@
}

/// State owned by the signaling loop: the local keypair. The secret key never
/// leaves this loop.
pub struct SignalingState {
    pub secret_key: Vec<u8>,
    pub public_key: Vec<u8>,
}

impl SignalingState {
    /// The public key is the one derived from the secret key.
    pub open spec fn wf(&self) -> bool {
        pk_of_sk(self.secret_key@) == Some(self.public_key@) && self.public_key@.len() == 32
    }

    /// Keep the keypair; refuse secret bytes that are no valid key.
    pub fn new(secret_key: Vec<u8>) -> (r: Option<SignalingState>)
        ensures
            match r {
                Some(st) => st.wf() && st.secret_key@ == secret_key@,
                None => pk_of_sk(secret_key@) is None,
            },
    {
        let public_key = match crate::crypto::derive_public_key(&secret_key) {
            Some(pk) => pk,
            None => {
                return None;
            },
        };
        Some(SignalingState { secret_key, public_key })
    }
}

/// `["REQ","<sub>",{"kinds":[4],"since":<since>}]`: subscribe to encrypted
/// direct messages from `since` on.
pub open spec fn spec_req_frame(sub: Seq<char>, since: u64) -> Seq<char> {
    "[\"REQ\",\""@ + sub + "\",{\"kinds\":[4],\"since\":"@ + dec_seq(since as nat) + "}]"@
}

/// The two tags of an outbound direct message: the receiver and the room tag.
pub open spec fn signal_tags(receiver: Seq<u8>) -> Seq<Seq<Seq<char>>> {
    seq![seq!["p"@, hex_seq(receiver)], seq!["t"@, room_tag()]]
}

/// The relay `EVENT` frame of one outbound direct message.
pub open spec fn spec_event_frame(
    id: Seq<u8>,
    pubkey: Seq<u8>,
    created_at: u64,
    receiver: Seq<u8>,
    content: Seq<char>,
    sig: Seq<u8>,
) -> Seq<char> {
    "[\"EVENT\",{\"id\":\""@ + hex_seq(id) + "\",\"pubkey\":\""@ + hex_seq(pubkey)
        + "\",\"created_at\":"@ + dec_seq(created_at as nat)
        + ",\"kind\":4,\"tags\":[[\"p\",\""@ + hex_seq(receiver)
        + "\"],[\"t\",\"matchbox-nostr-1\"]],\"content\":\""@ + content + "\",\"sig\":\""@
        + hex_seq(sig) + "\"}]"@
}

/// Write the subscription frame. The subscription id must be plain
/// hex-and-hyphen text, as a fresh UUID is, so that it needs no escaping.
pub fn subscribe_frame(sub_id: &str, since: u64) -> (r: String)
    requires
        forall|i: int| 0 <= i < sub_id@.len() ==> uuid_char(#[trigger] sub_id@[i]),
    ensures
        r@ == spec_req_frame(sub_id@, since),
{
    let mut out = String::new();
    out.append("[\"REQ\",\"");
    out.append(sub_id);
    out.append("\",{\"kinds\":[4],\"since\":");
    append_dec(&mut out, since);
    out.append("}]");
    proof {
        assert(out@ =~= spec_req_frame(sub_id@, since));
    }
    out
}

/// Write the relay `EVENT` frame from its parts.
fn build_event_frame(
    id: &Vec<u8>,
    pubkey: &Vec<u8>,
    created_at: u64,
    receiver: &Vec<u8>,
    content: &str,
    sig: &Vec<u8>,
) -> (r: String)
    ensures
        r@ == spec_event_frame(id@, pubkey@, created_at, receiver@, content@, sig@),
{
    let mut out = String::new();
    out.append("[\"EVENT\",{\"id\":\"");
    append_hex(&mut out, id);
    out.append("\",\"pubkey\":\"");
    append_hex(&mut out, pubkey);
    out.append("\",\"created_at\":");
    append_dec(&mut out, created_at);
    out.append(",\"kind\":4,\"tags\":[[\"p\",\"");
    append_hex(&mut out, receiver);
    out.append("\"],[\"t\",\"matchbox-nostr-1\"]],\"content\":\"");
    out.append(content);
    out.append("\",\"sig\":\"");
    append_hex(&mut out, sig);
    out.append("\"}]");
    proof {
        assert(out@ =~= spec_event_frame(id@, pubkey@, created_at, receiver@, content@, sig@));
    }
    out
}

/// What the frame built for an outbound signal satisfies, for the ciphertext
/// and signature that the encrypting and signing calls returned: the content
/// decrypts, under the local secret key and the receiver's public key, to the
/// canonical envelope, and the frame is the relay `EVENT` frame around it.
pub open spec fn good_signal_frame(
    frame: Seq<char>,
    sk: Seq<u8>,
    pk: Seq<u8>,
    created_at: u64,
    receiver: Seq<u8>,
    env: Seq<char>,
    cipher: Seq<char>,
    sig: Seq<u8>,
) -> bool {
    &&& nip04_text(cipher)
    &&& sig.len() == 64
    &&& nip04_plaintext(sk, receiver, cipher) == Some(env)
    &&& forall|sk2: Seq<u8>, pk2: Seq<u8>|
        pk_of_sk(sk2) == Some(receiver) && pk_of_sk(sk) == Some(pk2)
            ==> #[trigger] nip04_plaintext(sk2, pk2, cipher) == Some(env)
    &&& schnorr_valid(
        pk,
        nostr_event_id(pk, created_at, DIRECT_MESSAGE_KIND, signal_tags(receiver), cipher),
        sig,
    )
    &&& frame == spec_event_frame(
        nostr_event_id(pk, created_at, DIRECT_MESSAGE_KIND, signal_tags(receiver), cipher),
        pk,
        created_at,
        receiver,
        cipher,
        sig,
    )
}

/// What the frame of an accepted outbound signal satisfies: for some
/// ciphertext and signature the crypto calls returned, it is the well-formed
/// relay `EVENT` frame whose content decrypts to the request's canonical
/// envelope.
pub open spec fn outbound_frame_ok(
    st: SignalingState,
    req: PeerRequest,
    created_at: u64,
    frame: Seq<char>,
) -> bool {
    &&& req is Signal
    &&& exists|cipher: Seq<char>, sig: Seq<u8>|
        #[trigger] good_signal_frame(
            frame,
            st.secret_key@,
            st.public_key@,
            created_at,
            req->receiver@,
            spec_ser_request(req_model(req)),
            cipher,
            sig,
        )
}

/// The signaling loop's outbound turn: a keep-alive produces no relay frame; a
/// signal is serialized, encrypted to the receiver, wrapped in a signed event
/// and framed. Fails only when the crypto calls refuse the keys.
pub fn outbound_request_frame(st: &SignalingState, req: &PeerRequest, created_at: u64) -> (r:
    Result<Option<String>, SignalingError>)
    requires
        st.wf(),
    ensures
        r matches Ok(None) ==> *req is KeepAlive,
        r matches Ok(Some(frame)) ==> outbound_frame_ok(*st, *req, created_at, frame@),
        // success is owed whenever encryption accepts the keys
        *req matches PeerRequest::Signal { receiver, data } && nip04_keys_ok(
            st.secret_key@,
            receiver@,
        ) ==> r matches Ok(Some(frame)),
        r matches Err(e) ==> e == SignalingError::Serialization && (*req
            matches PeerRequest::Signal { receiver, data } && !nip04_keys_ok(
            st.secret_key@,
            receiver@,
        )),
{
    match req {
        PeerRequest::KeepAlive => Ok(None),
        PeerRequest::Signal { receiver, data } => {
            let env = serialize_request(req);
            let cipher = match nip04_encrypt(&st.secret_key, &receiver.bytes, env.as_str()) {
                Some(c) => c,
                None => {
                    return Err(SignalingError::Serialization);
                },
            };
            let mut receiver_hex = String::new();
            append_hex(&mut receiver_hex, &receiver.bytes);
            let mut tag_p: Vec<String> = Vec::new();
            tag_p.push(String::from_str("p"));
            tag_p.push(receiver_hex);
            let mut tag_t: Vec<String> = Vec::new();
            tag_t.push(String::from_str("t"));
            tag_t.push(String::from_str("matchbox-nostr-1"));
            let mut tags: Vec<Vec<String>> = Vec::new();
            tags.push(tag_p);
            tags.push(tag_t);
            proof {
                assert(tags.deep_view()[0][1] =~= signal_tags(receiver@)[0][1]);
                assert(tags.deep_view() =~~= signal_tags(receiver@));
            }
            let id = match compute_event_id(
                &st.public_key,
                created_at,
                DIRECT_MESSAGE_KIND,
                &tags,
                cipher.as_str(),
            ) {
                Some(i) => i,
                None => {
                    // a 32-byte key and two non-empty tags: cannot happen
                    proof {
                        assert(tags@[0]@.len() == 2);
                        assert(tags@[1]@.len() == 2);
                        assert(false);
                    }
                    return Err(SignalingError::Serialization);
                },
            };
            let sig = match schnorr_sign(&st.secret_key, &id) {
                Some(s) => s,
                None => {
                    // the key derives a public key, so signing accepts it
                    proof {
                        assert(false);
                    }
                    return Err(SignalingError::Serialization);
                },
            };
            let frame = build_event_frame(
                &id,
                &st.public_key,
                created_at,
                &receiver.bytes,
                cipher.as_str(),
                &sig,
            );
            proof {
                assert(good_signal_frame(
                    frame@,
                    st.secret_key@,
                    st.public_key@,
                    created_at,
                    receiver@,
                    spec_ser_request(req_model(*req)),
                    cipher@,
                    sig@,
                ));
                assert(outbound_frame_ok(*st, *req, created_at, frame@));
            }
            Ok(Some(frame))
        },
    }
}

/// Whether the decrypted envelope of an inbound event itself forges a signal
/// that names the local key as sender. Such an envelope is forwarded verbatim,
/// as any other event envelope is.
pub open spec fn embeds_self_signal(
    sk: Seq<u8>,
    local_pk: Seq<u8>,
    sender: Seq<u8>,
    content: Seq<char>,
) -> bool {
    match nip04_plaintext(sk, sender, content) {
        Some(plain) => spec_parse_request(plain) is None && match spec_parse_event(plain) {
            Some(EventModel::Signal { sender: s, data }) => s == local_pk,
            _ => false,
        },
        None => false,
    }
}

/// The events one inbound relay frame yields for the message loop.
///
/// Self-echo suppression is part of the contract: an event signed with the
/// local key yields nothing, and an emitted signal names the local key as
/// sender only where the decrypted envelope itself embeds it.
pub fn handle_relay_frame(st: &SignalingState, frame: &RelayFrame) -> (events: Vec<PeerEvent>)
    requires
        st.wf(),
    ensures
        match *frame {
            RelayFrame::Event { ref sender, kind, ref content } => {
                if sender@ == st.public_key@ {
                    events@.len() == 0
                } else if kind != DIRECT_MESSAGE_KIND {
                    events@.len() == 0
                } else {
                    match nip04_plaintext(st.secret_key@, sender@, content@) {
                        Some(plain) => match spec_parse_request(plain) {
                            Some(m) => match m {
                                ReqModel::Signal { receiver, data } => events@.len() == 1
                                    && event_model(events@[0]) == (EventModel::Signal {
                                    sender: sender@,
                                    data,
                                }),
                                ReqModel::KeepAlive => events@.len() == 0,
                            },
                            None => match spec_parse_event(plain) {
                                Some(m) => events@.len() == 1 && event_model(events@[0]) == m,
                                None => events@.len() == 0,
                            },
                        },
                        None => events@.len() == 0,
                    }
                }
            },
            _ => events@.len() == 0,
        },
        forall|i: int|
            0 <= i < events@.len() ==> ((#[trigger] events@[i]) matches PeerEvent::Signal {
                sender: ref s,
                data: ref d,
            } ==> (s@ != st.public_key@ || (frame matches RelayFrame::Event {
                ref sender,
                kind,
                ref content,
            } && embeds_self_signal(st.secret_key@, st.public_key@, sender@, content@)))),
{
    let mut events: Vec<PeerEvent> = Vec::new();
    match frame {
        RelayFrame::Event { sender, kind, content } => {
            if bytes_eq(sender, &st.public_key) {
                return events;
            }
            if *kind != DIRECT_MESSAGE_KIND {
                return events;
            }
            let plain = match nip04_decrypt(&st.secret_key, sender, content.as_str()) {
                Some(p) => p,
                None => {
                    return events;
                },
            };
            if let Some(req) = crate::codec::parse_request(plain.as_str()) {
                match req {
                    PeerRequest::Signal { receiver, data } => {
                        events.push(
                            PeerEvent::Signal { sender: PeerId { bytes: dup_bytes(sender) }, data },
                        );
                    },
                    PeerRequest::KeepAlive => {},
                }
                return events;
            }
            if let Some(ev) = crate::codec::parse_event(plain.as_str()) {
                events.push(ev);
                return events;
            }
            events
        },
        _ => events,
    }
}

/// What the signaling loop does before it enters its select loop: subscribe to
/// encrypted direct messages from `since` on under the given fresh
/// subscription id, and deliver the local identity. The identity is the first
/// event of any run, since no other event exists before the loop starts.
pub fn signaling_startup(st: &SignalingState, sub_id: &str, since: u64) -> (r: (String, PeerEvent))
    requires
        st.wf(),
        forall|i: int| 0 <= i < sub_id@.len() ==> uuid_char(#[trigger] sub_id@[i]),
    ensures
        r.0@ == spec_req_frame(sub_id@, since),
        r.1 matches PeerEvent::IdAssigned(ref p) && p@ == st.public_key@,
{
    let frame = subscribe_frame(sub_id, since);
    let id = PeerId { bytes: dup_bytes(&st.public_key) };
    (frame, PeerEvent::IdAssigned(id))
}

/// Law: identity first. The event trace of a run of the signaling loop is the
/// startup event followed by what inbound frames yield; its first element is
/// `IdAssigned` with the local key.
pub proof fn lemma_identity_first(
    first: PeerEvent,
    rest: Seq<Seq<PeerEvent>>,
    local_pk: Seq<u8>,
)
    requires
        first matches PeerEvent::IdAssigned(p) && p@ == local_pk,
    ensures
        (seq![first] + rest.flatten()).len() > 0,
        (seq![first] + rest.flatten())[0] matches PeerEvent::IdAssigned(p) && p@ == local_pk,
{
    assert((seq![first] + rest.flatten())[0] == first);
}

} // verus!
