use vstd::prelude::*;

use crate::encoding::is_hex_char;

verus! {

/// What NIP-04 decryption yields for a secret key, a public key and a
/// ciphertext: a pure function of the three.
pub uninterp spec fn nip04_plaintext(sk: Seq<u8>, pk: Seq<u8>, cipher: Seq<char>) -> Option<
    Seq<char>,
>;

/// The x-only public key derived from a secret key, if the bytes are a valid
/// key: a pure function of the secret key.
pub uninterp spec fn pk_of_sk(sk: Seq<u8>) -> Option<Seq<u8>>;

/// Whether NIP-04 encryption accepts this key pair: the secret bytes are a
/// valid scalar and the public bytes a valid x-only curve point. A pure
/// function of the two.
pub uninterp spec fn nip04_keys_ok(sk: Seq<u8>, pk: Seq<u8>) -> bool;

/// What Schnorr signature verification (BIP340, as nostr's event checking
/// runs it) yields for a public key, a message and a signature: a pure
/// function of the three.
pub uninterp spec fn schnorr_valid(pk: Seq<u8>, msg: Seq<u8>, sig: Seq<u8>) -> bool;

/// The identifier nostr computes for an event: the hash of the canonical
/// serialization of the given fields, a pure function of them.
pub uninterp spec fn nostr_event_id(
    pubkey: Seq<u8>,
    created_at: u64,
    kind: u16,
    tags: Seq<Seq<Seq<char>>>,
    content: Seq<char>,
) -> Seq<u8>;

/// A character NIP-04 ciphertext is made of: base64 text and the IV marker.
/// None of these needs escaping inside a JSON string.
pub open spec fn nip04_char(c: char) -> bool {
    ||| c == '+'
    ||| c == '/'
    ||| c == '='
    ||| c == '?'
    ||| ('0' <= c && c <= '9')
    ||| ('A' <= c && c <= 'Z')
    ||| ('a' <= c && c <= 'z')
}

pub open spec fn nip04_text(s: Seq<char>) -> bool {
    forall|i: int| 0 <= i < s.len() ==> nip04_char(#[trigger] s[i])
}

/// Relies on nostr's NIP-04 decryption (`nostr::nips::nip04::decrypt`):
/// deterministic in the two keys and the ciphertext. Returns nothing when the
/// key bytes are invalid or the ciphertext is malformed or undecryptable.
#[verifier::external_body]
pub fn nip04_decrypt(sk: &Vec<u8>, pk: &Vec<u8>, cipher: &str) -> (r: Option<String>)
    ensures
        match r {
            Some(p) => nip04_plaintext(sk@, pk@, cipher@) == Some(p@),
            None => nip04_plaintext(sk@, pk@, cipher@) is None,
        },
{
    let sk = nostr::key::SecretKey::from_slice(sk).ok()?;
    let pk = nostr::key::PublicKey::from_slice(pk).ok()?;
    nostr::nips::nip04::decrypt(&sk, &pk, cipher).ok()
}

/// Relies on nostr's NIP-04 encryption (`nostr::nips::nip04::encrypt`): it
/// succeeds exactly when the keys are acceptable; the ciphertext is base64
/// text with an IV marker; and the shared key is the x coordinate of the ECDH
/// point, the same for `(sk_A, pk_B)` as for `(sk_B, pk_A)`, so the
/// ciphertext decrypts to the plaintext under the same two keys and under any
/// counterpart key pair. The ciphertext itself is randomized (a fresh IV), so
/// nothing links two calls.
#[verifier::external_body]
pub fn nip04_encrypt(sk: &Vec<u8>, pk: &Vec<u8>, plain: &str) -> (r: Option<String>)
    ensures
        match r {
            Some(c) => {
                &&& nip04_keys_ok(sk@, pk@)
                &&& nip04_plaintext(sk@, pk@, c@) == Some(plain@)
                &&& nip04_text(c@)
                &&& forall|sk2: Seq<u8>, pk2: Seq<u8>|
                    pk_of_sk(sk2) == Some(pk@) && pk_of_sk(sk@) == Some(pk2)
                        ==> #[trigger] nip04_plaintext(sk2, pk2, c@) == Some(plain@)
            },
            None => !nip04_keys_ok(sk@, pk@),
        },
{
    let sk = nostr::key::SecretKey::from_slice(sk).ok()?;
    let pk = nostr::key::PublicKey::from_slice(pk).ok()?;
    nostr::nips::nip04::encrypt(&sk, &pk, plain).ok()
}

/// Relies on nostr's key derivation (`nostr::key::Keys::new` and
/// `Keys::public_key`): the 32-byte x-only public key of a secret key.
#[verifier::external_body]
pub fn derive_public_key(sk: &Vec<u8>) -> (r: Option<Vec<u8>>)
    ensures
        match r {
            Some(pk) => pk_of_sk(sk@) == Some(pk@) && pk@.len() == 32,
            None => pk_of_sk(sk@) is None,
        },
{
    let sk = nostr::key::SecretKey::from_slice(sk).ok()?;
    Some(nostr::key::Keys::new(sk).public_key().to_bytes().to_vec())
}

/// Relies on nostr's Schnorr signing (`nostr::key::Keys::sign_schnorr`): it
/// succeeds exactly when the secret bytes are a valid key, and every
/// signature it produces is 64 bytes and verifies under the key's derived
/// x-only public key. The signature itself is randomized.
#[verifier::external_body]
pub fn schnorr_sign(sk: &Vec<u8>, message: &Vec<u8>) -> (r: Option<Vec<u8>>)
    ensures
        match r {
            Some(sig) => {
                &&& sig@.len() == 64
                &&& pk_of_sk(sk@) is Some
                &&& (pk_of_sk(sk@) matches Some(p) ==> schnorr_valid(p, message@, sig@))
            },
            None => pk_of_sk(sk@) is None,
        },
{
    let sk = nostr::key::SecretKey::from_slice(sk).ok()?;
    let keys = nostr::key::Keys::new(sk);
    Some(keys.sign_schnorr(message).to_bytes().to_vec())
}

/// Relies on nostr's event identifier (`nostr::event::EventId::compute`):
/// the 32-byte hash of the canonical serialization of the fields, a pure
/// function of them. It fails only on a public key that is not 32 bytes or on
/// an empty tag.
#[verifier::external_body]
pub fn compute_event_id(
    pubkey: &Vec<u8>,
    created_at: u64,
    kind: u16,
    tags: &Vec<Vec<String>>,
    content: &str,
) -> (r: Option<Vec<u8>>)
    ensures
        match r {
            Some(id) => id@ == nostr_event_id(
                pubkey@,
                created_at,
                kind,
                tags.deep_view(),
                content@,
            ) && id@.len() == 32,
            None => pubkey@.len() != 32 || exists|i: int|
                0 <= i < tags@.len() && (#[trigger] tags@[i])@.len() == 0,
        },
{
    let pk = nostr::key::PublicKey::from_slice(pubkey).ok()?;
    let mut list: Vec<nostr::event::Tag> = Vec::new();
    for t in tags.iter() {
        list.push(nostr::event::Tag::parse(t.clone()).ok()?);
    }
    let id = nostr::event::EventId::compute(
        &pk,
        &nostr::types::Timestamp::from_secs(created_at),
        &nostr::event::Kind::from_u16(kind),
        &nostr::event::Tags::from_list(list),
        content,
    );
    Some(id.to_bytes().to_vec())
}

/// A character of a hyphenated UUID.
pub open spec fn uuid_char(c: char) -> bool {
    is_hex_char(c) || c == '-'
}

/// Relies on uuid's v4 generator and its hyphenated display: 36 characters of
/// lowercase hex and hyphens. Random, so nothing links two calls.
#[verifier::external_body]
pub fn fresh_subscription_id() -> (r: String)
    ensures
        r@.len() == 36,
        forall|i: int| 0 <= i < r@.len() ==> uuid_char(#[trigger] r@[i]),
{
    uuid::Uuid::new_v4().to_string()
}

/// Relies on nostr's clock reading (`nostr::types::Timestamp::now`): seconds
/// since the Unix epoch. Depends on the clock, so nothing more is stated.
#[verifier::external_body]
pub fn unix_now() -> (r: u64)
{
    nostr::types::Timestamp::now().as_secs()
}

/// A relay-to-client message, reduced to what the signaling loop reads of it.
pub enum RelayFrame {
    /// An event: who signed it, its kind, and its (possibly encrypted) content.
    Event { sender: Vec<u8>, kind: u16, content: String },
    /// A human-readable notice.
    Notice(String),
    /// End of stored events, delivery receipts, auth challenges, counts,
    /// closed subscriptions and negentropy frames: all ignored by this core.
    Other,
}

/// Relies on nostr's relay-message reading (`nostr::message::RelayMessage::
/// from_json`), one arm per variant, moving fields: the public key as its 32
/// bytes, the kind as its number.
#[verifier::external_body]
pub fn parse_relay_frame(s: &str) -> (r: Option<RelayFrame>)
    ensures
        match r {
            Some(f) => match f {
                RelayFrame::Event { sender, kind, content } => sender@.len() == 32,
                _ => true,
            },
            None => true,
        },
{
    Some(match nostr::message::RelayMessage::from_json(s).ok()? {
        nostr::message::RelayMessage::Event { event, .. } => RelayFrame::Event {
            sender: event.pubkey.to_bytes().to_vec(),
            kind: event.kind.as_u16(),
            content: event.content.clone(),
        },
        nostr::message::RelayMessage::Notice(m) => RelayFrame::Notice(m.into_owned()),
        _ => RelayFrame::Other,
    })
}

} // verus!
