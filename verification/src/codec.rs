use vstd::prelude::*;

use crate::encoding::{
    append_hex, hex_seq, is_hex_seq, lemma_hex_round_trip, match_at, parse_hex_range, unhex_seq,
};
use crate::types::{PeerEvent, PeerId, PeerRequest, PeerSignal, PEER_ID_LEN};

verus! {

// ---------------------------------------------------------------------------
// The peer-to-peer envelope: the JSON carried inside an encrypted direct
// message. All variable content is lowercase hex, so no escaping arises.
// ---------------------------------------------------------------------------
/// Mathematical shape of a `PeerRequest`.
pub enum ReqModel {
    Signal { receiver: Seq<u8>, data: Seq<u8> },
    KeepAlive,
}

/// Mathematical shape of a `PeerEvent`.
pub enum EventModel {
    IdAssigned(Seq<u8>),
    NewPeer(Seq<u8>),
    PeerLeft(Seq<u8>),
    Signal { sender: Seq<u8>, data: Seq<u8> },
}

pub open spec fn req_model(r: PeerRequest) -> ReqModel {
    match r {
        PeerRequest::Signal { receiver, data } => ReqModel::Signal {
            receiver: receiver@,
            data: data@,
        },
        PeerRequest::KeepAlive => ReqModel::KeepAlive,
    }
}

pub open spec fn event_model(e: PeerEvent) -> EventModel {
    match e {
        PeerEvent::IdAssigned(id) => EventModel::IdAssigned(id@),
        PeerEvent::NewPeer(id) => EventModel::NewPeer(id@),
        PeerEvent::PeerLeft(id) => EventModel::PeerLeft(id@),
        PeerEvent::Signal { sender, data } => EventModel::Signal {
            sender: sender@,
            data: data@,
        },
    }
}

/// A request model whose identifier has the right number of bytes.
pub open spec fn req_model_wf(m: ReqModel) -> bool {
    match m {
        ReqModel::Signal { receiver, data } => receiver.len() == PEER_ID_LEN,
        ReqModel::KeepAlive => true,
    }
}

/// An event model whose identifier has the right number of bytes.
pub open spec fn event_model_wf(m: EventModel) -> bool {
    match m {
        EventModel::IdAssigned(id) => id.len() == PEER_ID_LEN,
        EventModel::NewPeer(id) => id.len() == PEER_ID_LEN,
        EventModel::PeerLeft(id) => id.len() == PEER_ID_LEN,
        EventModel::Signal { sender, data } => sender.len() == PEER_ID_LEN,
    }
}

pub open spec fn lit_keep_alive() -> Seq<char> {
    "\"KeepAlive\""@
}

pub open spec fn lit_req_signal_prefix() -> Seq<char> {
    "{\"Signal\":{\"receiver\":\""@
}

pub open spec fn lit_event_signal_prefix() -> Seq<char> {
    "{\"Signal\":{\"sender\":\""@
}

pub open spec fn lit_data_mid() -> Seq<char> {
    "\",\"data\":\""@
}

pub open spec fn lit_obj_suffix() -> Seq<char> {
    "\"}}"@
}

pub open spec fn lit_id_assigned_prefix() -> Seq<char> {
    "{\"IdAssigned\":\""@
}

pub open spec fn lit_new_peer_prefix() -> Seq<char> {
    "{\"NewPeer\":\""@
}

pub open spec fn lit_peer_left_prefix() -> Seq<char> {
    "{\"PeerLeft\":\""@
}

pub open spec fn lit_tag_suffix() -> Seq<char> {
    "\"}"@
}

/// `<prefix><id hex>","data":"<data hex>"}}`
pub open spec fn spec_ser_signal(prefix: Seq<char>, id: Seq<u8>, data: Seq<u8>) -> Seq<char> {
    prefix + hex_seq(id) + lit_data_mid() + hex_seq(data) + lit_obj_suffix()
}

/// `<prefix><id hex>"}`
pub open spec fn spec_ser_tagged(prefix: Seq<char>, id: Seq<u8>) -> Seq<char> {
    prefix + hex_seq(id) + lit_tag_suffix()
}

/// The canonical notation of a request.
pub open spec fn spec_ser_request(m: ReqModel) -> Seq<char> {
    match m {
        ReqModel::KeepAlive => lit_keep_alive(),
        ReqModel::Signal { receiver, data } => spec_ser_signal(
            lit_req_signal_prefix(),
            receiver,
            data,
        ),
    }
}

/// The canonical notation of an event.
pub open spec fn spec_ser_event(m: EventModel) -> Seq<char> {
    match m {
        EventModel::IdAssigned(id) => spec_ser_tagged(lit_id_assigned_prefix(), id),
        EventModel::NewPeer(id) => spec_ser_tagged(lit_new_peer_prefix(), id),
        EventModel::PeerLeft(id) => spec_ser_tagged(lit_peer_left_prefix(), id),
        EventModel::Signal { sender, data } => spec_ser_signal(
            lit_event_signal_prefix(),
            sender,
            data,
        ),
    }
}

/// Whether `s` has the shape `<prefix><64 hex>","data":"<even hex>"}}`.
pub open spec fn signal_shape(s: Seq<char>, prefix: Seq<char>) -> bool {
    let pl = prefix.len() as int;
    let dm = lit_data_mid().len() as int;
    let su = lit_obj_suffix().len() as int;
    &&& s.len() >= pl + 64 + dm + su
    &&& s.subrange(0, pl) == prefix
    &&& is_hex_seq(s.subrange(pl, pl + 64))
    &&& s.subrange(pl + 64, pl + 64 + dm) == lit_data_mid()
    &&& (s.len() - su - (pl + 64 + dm)) % 2 == 0
    &&& is_hex_seq(s.subrange(pl + 64 + dm, s.len() - su))
    &&& s.subrange(s.len() - su, s.len() as int) == lit_obj_suffix()
}

pub open spec fn signal_shape_id(s: Seq<char>, prefix: Seq<char>) -> Seq<u8> {
    unhex_seq(s.subrange(prefix.len() as int, prefix.len() as int + 64))
}

pub open spec fn signal_shape_data(s: Seq<char>, prefix: Seq<char>) -> Seq<u8> {
    unhex_seq(
        s.subrange(
            prefix.len() as int + 64 + lit_data_mid().len(),
            s.len() as int - lit_obj_suffix().len(),
        ),
    )
}

/// Whether `s` has the shape `<prefix><64 hex>"}`.
pub open spec fn tagged_shape(s: Seq<char>, prefix: Seq<char>) -> bool {
    let pl = prefix.len() as int;
    &&& s.len() == pl + 64 + lit_tag_suffix().len()
    &&& s.subrange(0, pl) == prefix
    &&& is_hex_seq(s.subrange(pl, pl + 64))
    &&& s.subrange(pl + 64, s.len() as int) == lit_tag_suffix()
}

pub open spec fn tagged_shape_id(s: Seq<char>, prefix: Seq<char>) -> Seq<u8> {
    unhex_seq(s.subrange(prefix.len() as int, prefix.len() as int + 64))
}

/// What a character sequence denotes as a request, if anything.
pub open spec fn spec_parse_request(s: Seq<char>) -> Option<ReqModel> {
    if s == lit_keep_alive() {
        Some(ReqModel::KeepAlive)
    } else if signal_shape(s, lit_req_signal_prefix()) {
        Some(
            ReqModel::Signal {
                receiver: signal_shape_id(s, lit_req_signal_prefix()),
                data: signal_shape_data(s, lit_req_signal_prefix()),
            },
        )
    } else {
        None
    }
}

/// What a character sequence denotes as an event, if anything.
pub open spec fn spec_parse_event(s: Seq<char>) -> Option<EventModel> {
    if tagged_shape(s, lit_id_assigned_prefix()) {
        Some(EventModel::IdAssigned(tagged_shape_id(s, lit_id_assigned_prefix())))
    } else if tagged_shape(s, lit_new_peer_prefix()) {
        Some(EventModel::NewPeer(tagged_shape_id(s, lit_new_peer_prefix())))
    } else if tagged_shape(s, lit_peer_left_prefix()) {
        Some(EventModel::PeerLeft(tagged_shape_id(s, lit_peer_left_prefix())))
    } else if signal_shape(s, lit_event_signal_prefix()) {
        Some(
            EventModel::Signal {
                sender: signal_shape_id(s, lit_event_signal_prefix()),
                data: signal_shape_data(s, lit_event_signal_prefix()),
            },
        )
    } else {
        None
    }
}

/// Write a request in its canonical notation.
pub fn serialize_request(req: &PeerRequest) -> (r: String)
    ensures
        r@ == spec_ser_request(req_model(*req)),
{
    match req {
        PeerRequest::KeepAlive => {
            let mut out = String::new();
            out.append("\"KeepAlive\"");
            proof {
                assert(out@ =~= lit_keep_alive());
            }
            out
        },
        PeerRequest::Signal { receiver, data } => {
            let out = serialize_signal_body("{\"Signal\":{\"receiver\":\"", &receiver.bytes, &data.bytes);
            out
        },
    }
}

/// Write an event in its canonical notation.
pub fn serialize_event(ev: &PeerEvent) -> (r: String)
    ensures
        r@ == spec_ser_event(event_model(*ev)),
{
    match ev {
        PeerEvent::IdAssigned(id) => serialize_tagged_body("{\"IdAssigned\":\"", &id.bytes),
        PeerEvent::NewPeer(id) => serialize_tagged_body("{\"NewPeer\":\"", &id.bytes),
        PeerEvent::PeerLeft(id) => serialize_tagged_body("{\"PeerLeft\":\"", &id.bytes),
        PeerEvent::Signal { sender, data } => serialize_signal_body(
            "{\"Signal\":{\"sender\":\"",
            &sender.bytes,
            &data.bytes,
        ),
    }
}

fn serialize_signal_body(prefix: &str, id: &Vec<u8>, data: &Vec<u8>) -> (r: String)
    ensures
        r@ == spec_ser_signal(prefix@, id@, data@),
{
    let mut out = String::new();
    out.append(prefix);
    append_hex(&mut out, id);
    out.append("\",\"data\":\"");
    append_hex(&mut out, data);
    out.append("\"}}");
    proof {
        assert(out@ =~= spec_ser_signal(prefix@, id@, data@));
    }
    out
}

fn serialize_tagged_body(prefix: &str, id: &Vec<u8>) -> (r: String)
    ensures
        r@ == spec_ser_tagged(prefix@, id@),
{
    let mut out = String::new();
    out.append(prefix);
    append_hex(&mut out, id);
    out.append("\"}");
    proof {
        assert(out@ =~= spec_ser_tagged(prefix@, id@));
    }
    out
}

/// Read the two hex fields of `<prefix><64 hex>","data":"<even hex>"}}`.
fn parse_signal_body(s: &str, prefix: &str) -> (r: Option<(Vec<u8>, Vec<u8>)>)
    ensures
        match r {
            Some((id, data)) => signal_shape(s@, prefix@) && id@ == signal_shape_id(s@, prefix@)
                && data@ == signal_shape_data(s@, prefix@) && id@.len() == 32,
            None => !signal_shape(s@, prefix@),
        },
{
    proof {
        reveal_strlit("\",\"data\":\"");
        reveal_strlit("\"}}");
    }
    let n = s.unicode_len();
    let pl = prefix.unicode_len();
    let dm_lit = "\",\"data\":\"";
    let su_lit = "\"}}";
    let dm = dm_lit.unicode_len();
    let su = su_lit.unicode_len();
    if n < pl || n - pl < 64 + dm + su {
        return None;
    }
    if !match_at(s, 0, prefix) {
        return None;
    }
    let id = match parse_hex_range(s, pl, pl + 64) {
        Some(v) => v,
        None => {
            return None;
        },
    };
    if !match_at(s, pl + 64, dm_lit) {
        return None;
    }
    let data = match parse_hex_range(s, pl + 64 + dm, n - su) {
        Some(v) => v,
        None => {
            return None;
        },
    };
    if !match_at(s, n - su, su_lit) {
        return None;
    }
    proof {
        crate::encoding::lemma_unhex_len(s@.subrange(pl as int, pl + 64));
        crate::encoding::lemma_unhex_len(
            s@.subrange(pl + 64 + dm, s@.len() - su as int),
        );
    }
    Some((id, data))
}

/// Read the hex field of `<prefix><64 hex>"}`.
fn parse_tagged_body(s: &str, prefix: &str) -> (r: Option<Vec<u8>>)
    ensures
        match r {
            Some(id) => tagged_shape(s@, prefix@) && id@ == tagged_shape_id(s@, prefix@)
                && id@.len() == 32,
            None => !tagged_shape(s@, prefix@),
        },
{
    proof {
        reveal_strlit("\"}");
    }
    let n = s.unicode_len();
    let pl = prefix.unicode_len();
    let su_lit = "\"}";
    let su = su_lit.unicode_len();
    if n < pl || n - pl != 64 + su {
        return None;
    }
    if !match_at(s, 0, prefix) {
        return None;
    }
    let id = match parse_hex_range(s, pl, pl + 64) {
        Some(v) => v,
        None => {
            return None;
        },
    };
    if !match_at(s, pl + 64, su_lit) {
        return None;
    }
    proof {
        crate::encoding::lemma_unhex_len(s@.subrange(pl as int, pl + 64));
    }
    Some(id)
}

/// Read a request from its canonical notation; refuse anything else.
pub fn parse_request(s: &str) -> (r: Option<PeerRequest>)
    ensures
        match r {
            Some(req) => spec_parse_request(s@) == Some(req_model(req)) && req_model_wf(
                req_model(req),
            ),
            None => spec_parse_request(s@) is None,
        },
{
    proof {
        reveal_strlit("\"KeepAlive\"");
    }
    let ka = "\"KeepAlive\"";
    let n = s.unicode_len();
    if n == ka.unicode_len() && match_at(s, 0, ka) {
        proof {
            assert(s@.subrange(0, s@.len() as int) =~= s@);
        }
        return Some(PeerRequest::KeepAlive);
    }
    proof {
        assert(s@.subrange(0, s@.len() as int) =~= s@);
        assert(s@ != lit_keep_alive());
    }
    match parse_signal_body(s, "{\"Signal\":{\"receiver\":\"") {
        Some((id, data)) => Some(
            PeerRequest::Signal { receiver: PeerId { bytes: id }, data: PeerSignal { bytes: data } },
        ),
        None => None,
    }
}

/// Read an event from its canonical notation; refuse anything else.
pub fn parse_event(s: &str) -> (r: Option<PeerEvent>)
    ensures
        match r {
            Some(ev) => spec_parse_event(s@) == Some(event_model(ev)) && event_model_wf(
                event_model(ev),
            ),
            None => spec_parse_event(s@) is None,
        },
{
    if let Some(id) = parse_tagged_body(s, "{\"IdAssigned\":\"") {
        return Some(PeerEvent::IdAssigned(PeerId { bytes: id }));
    }
    if let Some(id) = parse_tagged_body(s, "{\"NewPeer\":\"") {
        return Some(PeerEvent::NewPeer(PeerId { bytes: id }));
    }
    if let Some(id) = parse_tagged_body(s, "{\"PeerLeft\":\"") {
        return Some(PeerEvent::PeerLeft(PeerId { bytes: id }));
    }
    if let Some((id, data)) = parse_signal_body(s, "{\"Signal\":{\"sender\":\"") {
        return Some(
            PeerEvent::Signal { sender: PeerId { bytes: id }, data: PeerSignal { bytes: data } },
        );
    }
    None
}

proof fn lemma_signal_shape_round_trip(prefix: Seq<char>, id: Seq<u8>, data: Seq<u8>)
    requires
        id.len() == 32,
    ensures
        signal_shape(spec_ser_signal(prefix, id, data), prefix),
        signal_shape_id(spec_ser_signal(prefix, id, data), prefix) == id,
        signal_shape_data(spec_ser_signal(prefix, id, data), prefix) == data,
{
    lemma_hex_round_trip(id);
    lemma_hex_round_trip(data);
    let s = spec_ser_signal(prefix, id, data);
    let pl = prefix.len() as int;
    let dm = lit_data_mid().len() as int;
    let su = lit_obj_suffix().len() as int;
    assert(s.subrange(0, pl) =~= prefix);
    assert(s.subrange(pl, pl + 64) =~= hex_seq(id));
    assert(s.subrange(pl + 64, pl + 64 + dm) =~= lit_data_mid());
    assert(s.subrange(pl + 64 + dm, s.len() - su) =~= hex_seq(data));
    assert(s.subrange(s.len() - su, s.len() as int) =~= lit_obj_suffix());
}

proof fn lemma_tagged_shape_round_trip(prefix: Seq<char>, id: Seq<u8>)
    requires
        id.len() == 32,
    ensures
        tagged_shape(spec_ser_tagged(prefix, id), prefix),
        tagged_shape_id(spec_ser_tagged(prefix, id), prefix) == id,
{
    lemma_hex_round_trip(id);
    let s = spec_ser_tagged(prefix, id);
    let pl = prefix.len() as int;
    assert(s.subrange(0, pl) =~= prefix);
    assert(s.subrange(pl, pl + 64) =~= hex_seq(id));
    assert(s.subrange(pl + 64, s.len() as int) =~= lit_tag_suffix());
}

/// Law: the canonical notation of a request reads back as that request.
pub proof fn lemma_request_round_trip(m: ReqModel)
    requires
        req_model_wf(m),
    ensures
        spec_parse_request(spec_ser_request(m)) == Some(m),
{
    match m {
        ReqModel::KeepAlive => {
        },
        ReqModel::Signal { receiver, data } => {
            reveal_strlit("\"KeepAlive\"");
            reveal_strlit("{\"Signal\":{\"receiver\":\"");
            lemma_hex_round_trip(receiver);
            lemma_hex_round_trip(data);
            lemma_signal_shape_round_trip(lit_req_signal_prefix(), receiver, data);
            let s = spec_ser_request(m);
            assert(s.len() >= lit_req_signal_prefix().len() + 64);
            assert(s != lit_keep_alive());
        },
    }
}

/// Law: the canonical notation of an event reads back as that event.
pub proof fn lemma_event_round_trip(m: EventModel)
    requires
        event_model_wf(m),
    ensures
        spec_parse_event(spec_ser_event(m)) == Some(m),
{
    reveal_strlit("{\"IdAssigned\":\"");
    reveal_strlit("{\"NewPeer\":\"");
    reveal_strlit("{\"PeerLeft\":\"");
    reveal_strlit("{\"Signal\":{\"sender\":\"");
    reveal_strlit("\"}");
    reveal_strlit("\"}}");
    reveal_strlit("\",\"data\":\"");
    let s = spec_ser_event(m);
    match m {
        EventModel::IdAssigned(id) => {
            lemma_tagged_shape_round_trip(lit_id_assigned_prefix(), id);
        },
        EventModel::NewPeer(id) => {
            lemma_tagged_shape_round_trip(lit_new_peer_prefix(), id);
            lemma_hex_round_trip(id);
            assert(s.len() == 78);
            assert(!tagged_shape(s, lit_id_assigned_prefix()));
        },
        EventModel::PeerLeft(id) => {
            lemma_tagged_shape_round_trip(lit_peer_left_prefix(), id);
            lemma_hex_round_trip(id);
            assert(s.len() == 79);
            assert(!tagged_shape(s, lit_id_assigned_prefix()));
            assert(!tagged_shape(s, lit_new_peer_prefix()));
        },
        EventModel::Signal { sender, data } => {
            lemma_signal_shape_round_trip(lit_event_signal_prefix(), sender, data);
            lemma_hex_round_trip(sender);
            lemma_hex_round_trip(data);
            assert(s.len() >= 98);
            assert(!tagged_shape(s, lit_id_assigned_prefix()));
            assert(!tagged_shape(s, lit_new_peer_prefix()));
            assert(!tagged_shape(s, lit_peer_left_prefix()));
        },
    }
}

/// Law: an event's notation is never read as a request, so reading an
/// envelope as a request first cannot swallow an event.
pub proof fn lemma_event_not_request(m: EventModel)
    requires
        event_model_wf(m),
    ensures
        spec_parse_request(spec_ser_event(m)) is None,
{
    reveal_strlit("\"KeepAlive\"");
    reveal_strlit("{\"IdAssigned\":\"");
    reveal_strlit("{\"NewPeer\":\"");
    reveal_strlit("{\"PeerLeft\":\"");
    reveal_strlit("{\"Signal\":{\"sender\":\"");
    reveal_strlit("{\"Signal\":{\"receiver\":\"");
    reveal_strlit("\"}");
    reveal_strlit("\"}}");
    reveal_strlit("\",\"data\":\"");
    let s = spec_ser_event(m);
    match m {
        EventModel::IdAssigned(id) => {
            lemma_hex_round_trip(id);
            assert(s.len() == 81);
            assert(s != lit_keep_alive());
            assert(!signal_shape(s, lit_req_signal_prefix()));
        },
        EventModel::NewPeer(id) => {
            lemma_hex_round_trip(id);
            assert(s.len() == 78);
            assert(s != lit_keep_alive());
            assert(!signal_shape(s, lit_req_signal_prefix()));
        },
        EventModel::PeerLeft(id) => {
            lemma_hex_round_trip(id);
            assert(s.len() == 79);
            assert(s != lit_keep_alive());
            assert(!signal_shape(s, lit_req_signal_prefix()));
        },
        EventModel::Signal { sender, data } => {
            lemma_hex_round_trip(sender);
            lemma_hex_round_trip(data);
            assert(s.len() >= 98);
            assert(s != lit_keep_alive());
            assert(s[12] == lit_event_signal_prefix()[12]);
            assert(s[12] == 's');
            if signal_shape(s, lit_req_signal_prefix()) {
                assert(s.subrange(0, 24)[12] == s[12]);
                assert(s.subrange(0, 24)[12] == lit_req_signal_prefix()[12]);
                assert(false);
            }
        },
    }
}

} // verus!
