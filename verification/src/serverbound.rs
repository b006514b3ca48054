use vstd::prelude::*;
use vstd::utf8::encode_utf8;
use crate::data::{
    PacketDecoder, DecodeError, varint_at, be_at, string_at, varnum_bytes, be_bytes, str_bytes,
    bool_byte, lemma_varint_at_from, lemma_be_at_from, lemma_string_at_from, lemma_pow256_pos,
};
use crate::protocol::NetworkState;

verus! {

// ---------------------------------------------------------------------------
// Inbound packets
// ---------------------------------------------------------------------------

/// The first packet of every session: protocol revision, the address the
/// client dialed, and the state it asks to enter.
#[derive(Debug, PartialEq)]
pub struct Handshake {
    pub version: i32,
    pub addr: String,
    pub port: u16,
    pub next_state: i32,
}

/// Signature data a login-start may carry in other protocol revisions;
/// unused by the supported revision but part of the model.
#[derive(Debug, PartialEq)]
pub struct SigData {
    pub timestamp: i64,
    pub pubkey: Vec<u8>,
    pub sig: Vec<u8>,
}

/// The client's claimed identity: display name and 128-bit identifier.
#[derive(Debug, PartialEq)]
pub struct LoginStart {
    pub name: String,
    pub uuid: u128,
}

/// A chat line (or, under a different packet ID, a typed command).
#[derive(Debug, PartialEq)]
pub struct ChatMessage {
    pub message: String,
    pub timestamp: i64,
}

/// The client's answer to a login-plugin round trip: the request ID it
/// answers and, on success, an opaque payload.
#[derive(Debug, PartialEq)]
pub struct LoginPluginResponse {
    pub id: i32,
    pub data: Option<Vec<u8>>,
}

/// A named-channel payload sent during play.
#[derive(Debug, PartialEq)]
pub struct SPluginMessage {
    pub channel: String,
    pub data: Vec<u8>,
}

// ---------------------------------------------------------------------------
// Spec-level payload decodings
// ---------------------------------------------------------------------------

/// The handshake fields starting at `i`, or the exact decode error.
pub open spec fn handshake_at(s: Seq<u8>, i: int) -> Result<
    ((i32, Seq<char>, u16, i32), int),
    DecodeError,
> {
    match varint_at(s, i) {
        Err(e) => Err(e),
        Ok((version, j)) => match string_at(s, j) {
            Err(e) => Err(e),
            Ok((addr, k)) => match be_at(s, k, 2) {
                Err(e) => Err(e),
                Ok((port, l)) => match varint_at(s, l) {
                    Err(e) => Err(e),
                    Ok((next_state, m)) => Ok(((version, addr, port as u16, next_state), m)),
                },
            },
        },
    }
}

/// The login-start fields starting at `i`. A missing identifier flag is
/// its own error: the supported revision demands the identifier.
pub open spec fn login_start_at(s: Seq<u8>, i: int) -> Result<((Seq<char>, u128), int), DecodeError> {
    match string_at(s, i) {
        Err(e) => Err(e),
        Ok((name, j)) => if j >= s.len() {
            Err(DecodeError::UnexpectedEnd)
        } else if s[j] == 0 {
            Err(DecodeError::MissingUuid)
        } else {
            match be_at(s, j + 1, 16) {
                Err(e) => Err(e),
                Ok((u, k)) => Ok(((name, u as u128), k)),
            }
        },
    }
}

/// The chat-message fields starting at `i`.
pub open spec fn chat_message_at(s: Seq<u8>, i: int) -> Result<((Seq<char>, i64), int), DecodeError> {
    match string_at(s, i) {
        Err(e) => Err(e),
        Ok((message, j)) => match be_at(s, j, 8) {
            Err(e) => Err(e),
            Ok((ts, k)) => Ok(((message, (ts as u64) as i64), k)),
        },
    }
}

/// The login-plugin-response fields starting at `i`: the answered ID and,
/// when the success flag is set, all remaining bytes.
pub open spec fn login_plugin_response_at(s: Seq<u8>, i: int) -> Result<
    ((i32, Option<Seq<u8>>), int),
    DecodeError,
> {
    match varint_at(s, i) {
        Err(e) => Err(e),
        Ok((id, j)) => if j >= s.len() {
            Err(DecodeError::UnexpectedEnd)
        } else if s[j] != 0 {
            Ok(((id, Some(s.subrange(j + 1, s.len() as int))), s.len() as int))
        } else {
            Ok(((id, None), j + 1))
        },
    }
}

/// The plugin-message fields starting at `i`: a channel name and all
/// remaining bytes.
pub open spec fn plugin_message_at(s: Seq<u8>, i: int) -> Result<
    ((Seq<char>, Seq<u8>), int),
    DecodeError,
> {
    match string_at(s, i) {
        Err(e) => Err(e),
        Ok((channel, j)) => Ok(((channel, s.subrange(j, s.len() as int)), s.len() as int)),
    }
}

// ---------------------------------------------------------------------------
// Exec decoders
// ---------------------------------------------------------------------------

impl Handshake {
    pub fn decode(decoder: PacketDecoder) -> (r: Result<Handshake, DecodeError>)
        requires
            decoder.wf(),
        ensures
            match handshake_at(decoder.buf(), decoder.pos()) {
                Ok(((version, addr, port, next_state), _)) => r matches Ok(h) && h.version
                    == version && h.addr@ == addr && h.port == port && h.next_state == next_state,
                Err(e) => r matches Err(re) && re == e,
            },
    {
        let mut decoder = decoder;
        let version = match decoder.read_varint() {
            Ok(v) => v,
            Err(e) => {
                return Err(e);
            },
        };
        let addr = match decoder.read_string() {
            Ok(v) => v,
            Err(e) => {
                return Err(e);
            },
        };
        let port = match decoder.read_ushort() {
            Ok(v) => v,
            Err(e) => {
                return Err(e);
            },
        };
        let next_state = match decoder.read_varint() {
            Ok(v) => v,
            Err(e) => {
                return Err(e);
            },
        };
        Ok(Handshake { version, addr, port, next_state })
    }
}

impl LoginStart {
    pub fn decode(decoder: PacketDecoder) -> (r: Result<LoginStart, DecodeError>)
        requires
            decoder.wf(),
        ensures
            match login_start_at(decoder.buf(), decoder.pos()) {
                Ok(((name, uuid), _)) => r matches Ok(p) && p.name@ == name && p.uuid == uuid,
                Err(e) => r matches Err(re) && re == e,
            },
    {
        let mut decoder = decoder;
        let name = match decoder.read_string() {
            Ok(v) => v,
            Err(e) => {
                return Err(e);
            },
        };
        let has_uuid = match decoder.read_bool() {
            Ok(v) => v,
            Err(e) => {
                return Err(e);
            },
        };
        if !has_uuid {
            return Err(DecodeError::MissingUuid);
        }
        let uuid = match decoder.read_uuid() {
            Ok(v) => v,
            Err(e) => {
                return Err(e);
            },
        };
        proof {
            lemma_pow256_pos(16);
        }
        Ok(LoginStart { name, uuid })
    }
}

impl ChatMessage {
    pub fn decode(decoder: PacketDecoder) -> (r: Result<ChatMessage, DecodeError>)
        requires
            decoder.wf(),
        ensures
            match chat_message_at(decoder.buf(), decoder.pos()) {
                Ok(((message, ts), _)) => r matches Ok(p) && p.message@ == message && p.timestamp
                    == ts,
                Err(e) => r matches Err(re) && re == e,
            },
    {
        let mut decoder = decoder;
        let message = match decoder.read_string() {
            Ok(v) => v,
            Err(e) => {
                return Err(e);
            },
        };
        let timestamp = match decoder.read_long() {
            Ok(v) => v,
            Err(e) => {
                return Err(e);
            },
        };
        Ok(ChatMessage { message, timestamp })
    }
}

impl LoginPluginResponse {
    pub fn decode(decoder: PacketDecoder) -> (r: Result<LoginPluginResponse, DecodeError>)
        requires
            decoder.wf(),
        ensures
            match login_plugin_response_at(decoder.buf(), decoder.pos()) {
                Ok(((id, data), _)) => r matches Ok(p) && p.id == id && (match (p.data, data) {
                    (Some(v), Some(sq)) => v@ == sq,
                    (None, None) => true,
                    _ => false,
                }),
                Err(e) => r matches Err(re) && re == e,
            },
    {
        let mut decoder = decoder;
        let id = match decoder.read_varint() {
            Ok(v) => v,
            Err(e) => {
                return Err(e);
            },
        };
        let success = match decoder.read_bool() {
            Ok(v) => v,
            Err(e) => {
                return Err(e);
            },
        };
        let data = if success {
            Some(decoder.read_to_end())
        } else {
            None
        };
        Ok(LoginPluginResponse { id, data })
    }
}

impl SPluginMessage {
    pub fn decode(decoder: PacketDecoder) -> (r: Result<SPluginMessage, DecodeError>)
        requires
            decoder.wf(),
        ensures
            match plugin_message_at(decoder.buf(), decoder.pos()) {
                Ok(((channel, data), _)) => r matches Ok(p) && p.channel@ == channel && p.data@
                    == data,
                Err(e) => r matches Err(re) && re == e,
            },
    {
        let mut decoder = decoder;
        let channel = match decoder.read_string() {
            Ok(v) => v,
            Err(e) => {
                return Err(e);
            },
        };
        let data = decoder.read_to_end();
        Ok(SPluginMessage { channel, data })
    }
}

// ---------------------------------------------------------------------------
// Dispatch
// ---------------------------------------------------------------------------

/// Every packet a client can send, as the dispatch table classifies it:
/// decoded, deliberately dropped (`Ignored`), or not in the table at all
/// (`Unknown`).
#[derive(Debug, PartialEq)]
pub enum ServerBoundPacket {
    Unknown(i32),
    Ignored(i32),
    // handshake
    Handshake(Handshake),
    // status
    StatusRequest(),
    PingRequest(i64),
    // login
    LoginStart(LoginStart),
    LoginPluginResponse(LoginPluginResponse),
    // play
    ChatMessage(ChatMessage),
    ChatCommand(ChatMessage),
    PluginMessage(SPluginMessage),
}

/// The `(state, packet ID)` pairs the dispatch table decodes.
pub open spec fn known_id(state: NetworkState, id: i32) -> bool {
    ||| state == NetworkState::Handshake && id == 0x00
    ||| state == NetworkState::Status && (id == 0x00 || id == 0x01)
    ||| state == NetworkState::Login && (id == 0x00 || id == 0x02)
    ||| state == NetworkState::Play && (id == 0x04 || id == 0x05 || id == 0x0C)
}

/// The `(state, packet ID)` pairs the table marks uninteresting: they are
/// dropped without being decoded.
pub open spec fn ignored_id(state: NetworkState, id: i32) -> bool {
    state == NetworkState::Play && (id == 0x11 || id == 0x13 || id == 0x14 || id == 0x15 || id
        == 0x1d)
}

impl ServerBoundPacket {
    /// Classifies and decodes one frame against the current session state,
    /// applying the state transitions the table prescribes: a handshake
    /// moves to `Status` or `Login`, and the login-barrier answer (ID -1)
    /// moves to `Play`. A pair outside the table yields `Unknown` and
    /// leaves the state untouched; a pair marked uninteresting yields
    /// `Ignored`. Decode failures leave the state untouched too.
    pub fn decode(state: &mut NetworkState, decoder: PacketDecoder) -> (r: Result<
        ServerBoundPacket,
        DecodeError,
    >)
        requires
            decoder.wf(),
        ensures
            ({
                let st = *old(state);
                let buf = decoder.buf();
                let pos = decoder.pos();
                let id = decoder.id_spec();
                &&& (!known_id(st, id) && !ignored_id(st, id)) ==> (r matches Ok(p) && p
                    == ServerBoundPacket::Unknown(id) && *final(state) == st)
                &&& ignored_id(st, id) ==> (r matches Ok(p) && p == ServerBoundPacket::Ignored(id)
                    && *final(state) == st)
                &&& (st == NetworkState::Handshake && id == 0x00) ==> match handshake_at(
                    buf,
                    pos,
                ) {
                    Ok(((version, addr, port, next_state), _)) => {
                        if next_state == 1 || next_state == 2 {
                            &&& r matches Ok(p)
                            &&& p matches ServerBoundPacket::Handshake(h)
                            &&& h.version == version
                            &&& h.addr@ == addr
                            &&& h.port == port
                            &&& h.next_state == next_state
                            &&& *final(state) == (if next_state == 1 {
                                NetworkState::Status
                            } else {
                                NetworkState::Login
                            })
                        } else {
                            r matches Err(e) && e == DecodeError::InvalidNextState && *final(state)
                                == st
                        }
                    },
                    Err(e) => r matches Err(re) && re == e && *final(state) == st,
                }
                &&& (st == NetworkState::Status && id == 0x00) ==> (r matches Ok(p) && p
                    == ServerBoundPacket::StatusRequest() && *final(state) == st)
                &&& (st == NetworkState::Status && id == 0x01) ==> match be_at(buf, pos, 8) {
                    Ok((v, _)) => r matches Ok(p) && p == ServerBoundPacket::PingRequest(
                        (v as u64) as i64,
                    ) && *final(state) == st,
                    Err(e) => r matches Err(re) && re == e && *final(state) == st,
                }
                &&& (st == NetworkState::Login && id == 0x00) ==> match login_start_at(buf, pos) {
                    Ok(((name, uuid), _)) => {
                        &&& r matches Ok(p)
                        &&& p matches ServerBoundPacket::LoginStart(ls)
                        &&& ls.name@ == name
                        &&& ls.uuid == uuid
                        &&& *final(state) == st
                    },
                    Err(e) => r matches Err(re) && re == e && *final(state) == st,
                }
                &&& (st == NetworkState::Login && id == 0x02) ==> match login_plugin_response_at(
                    buf,
                    pos,
                ) {
                    Ok(((pid, data), _)) => {
                        &&& r matches Ok(p)
                        &&& p matches ServerBoundPacket::LoginPluginResponse(lpr)
                        &&& lpr.id == pid
                        &&& (match (lpr.data, data) {
                            (Some(v), Some(sq)) => v@ == sq,
                            (None, None) => true,
                            _ => false,
                        })
                        &&& *final(state) == (if pid == -1 {
                            NetworkState::Play
                        } else {
                            st
                        })
                    },
                    Err(e) => r matches Err(re) && re == e && *final(state) == st,
                }
                &&& (st == NetworkState::Play && id == 0x04) ==> match chat_message_at(buf, pos) {
                    Ok(((message, ts), _)) => {
                        &&& r matches Ok(p)
                        &&& p matches ServerBoundPacket::ChatCommand(m)
                        &&& m.message@ == message
                        &&& m.timestamp == ts
                        &&& *final(state) == st
                    },
                    Err(e) => r matches Err(re) && re == e && *final(state) == st,
                }
                &&& (st == NetworkState::Play && id == 0x05) ==> match chat_message_at(buf, pos) {
                    Ok(((message, ts), _)) => {
                        &&& r matches Ok(p)
                        &&& p matches ServerBoundPacket::ChatMessage(m)
                        &&& m.message@ == message
                        &&& m.timestamp == ts
                        &&& *final(state) == st
                    },
                    Err(e) => r matches Err(re) && re == e && *final(state) == st,
                }
                &&& (st == NetworkState::Play && id == 0x0C) ==> match plugin_message_at(
                    buf,
                    pos,
                ) {
                    Ok(((channel, data), _)) => {
                        &&& r matches Ok(p)
                        &&& p matches ServerBoundPacket::PluginMessage(m)
                        &&& m.channel@ == channel
                        &&& m.data@ == data
                        &&& *final(state) == st
                    },
                    Err(e) => r matches Err(re) && re == e && *final(state) == st,
                }
            }),
    {
        let id = decoder.packet_id();
        match *state {
            NetworkState::Handshake => {
                if id == 0x00 {
                    let hs = match Handshake::decode(decoder) {
                        Ok(v) => v,
                        Err(e) => {
                            return Err(e);
                        },
                    };
                    if hs.next_state == 1 {
                        *state = NetworkState::Status;
                    } else if hs.next_state == 2 {
                        *state = NetworkState::Login;
                    } else {
                        return Err(DecodeError::InvalidNextState);
                    }
                    Ok(ServerBoundPacket::Handshake(hs))
                } else {
                    Ok(ServerBoundPacket::Unknown(id))
                }
            },
            NetworkState::Status => {
                if id == 0x00 {
                    Ok(ServerBoundPacket::StatusRequest())
                } else if id == 0x01 {
                    let mut decoder = decoder;
                    let n = match decoder.read_long() {
                        Ok(v) => v,
                        Err(e) => {
                            return Err(e);
                        },
                    };
                    Ok(ServerBoundPacket::PingRequest(n))
                } else {
                    Ok(ServerBoundPacket::Unknown(id))
                }
            },
            NetworkState::Login => {
                if id == 0x00 {
                    let ls = match LoginStart::decode(decoder) {
                        Ok(v) => v,
                        Err(e) => {
                            return Err(e);
                        },
                    };
                    Ok(ServerBoundPacket::LoginStart(ls))
                } else if id == 0x02 {
                    let lpr = match LoginPluginResponse::decode(decoder) {
                        Ok(v) => v,
                        Err(e) => {
                            return Err(e);
                        },
                    };
                    if lpr.id == -1 {
                        *state = NetworkState::Play;
                    }
                    Ok(ServerBoundPacket::LoginPluginResponse(lpr))
                } else {
                    Ok(ServerBoundPacket::Unknown(id))
                }
            },
            NetworkState::Play => {
                if id == 0x04 {
                    let m = match ChatMessage::decode(decoder) {
                        Ok(v) => v,
                        Err(e) => {
                            return Err(e);
                        },
                    };
                    Ok(ServerBoundPacket::ChatCommand(m))
                } else if id == 0x05 {
                    let m = match ChatMessage::decode(decoder) {
                        Ok(v) => v,
                        Err(e) => {
                            return Err(e);
                        },
                    };
                    Ok(ServerBoundPacket::ChatMessage(m))
                } else if id == 0x0C {
                    let m = match SPluginMessage::decode(decoder) {
                        Ok(v) => v,
                        Err(e) => {
                            return Err(e);
                        },
                    };
                    Ok(ServerBoundPacket::PluginMessage(m))
                } else if id == 0x11 || id == 0x13 || id == 0x14 || id == 0x15 || id == 0x1d {
                    Ok(ServerBoundPacket::Ignored(id))
                } else {
                    Ok(ServerBoundPacket::Unknown(id))
                }
            },
        }
    }
}

// ---------------------------------------------------------------------------
// Canonical payloads and round-trip laws
// ---------------------------------------------------------------------------

/// The canonical wire payload of a handshake.
pub open spec fn handshake_payload(version: i32, addr: Seq<char>, port: u16, next_state: i32) -> Seq<
    u8,
> {
    varnum_bytes((version as u32) as nat) + str_bytes(addr) + be_bytes(port as nat, 2)
        + varnum_bytes((next_state as u32) as nat)
}

/// The canonical wire payload of a login start carrying its identifier.
pub open spec fn login_start_payload(name: Seq<char>, uuid: u128) -> Seq<u8> {
    str_bytes(name) + seq![bool_byte(true)] + be_bytes(uuid as nat, 16)
}

/// The canonical wire payload of a chat message.
pub open spec fn chat_message_payload(message: Seq<char>, timestamp: i64) -> Seq<u8> {
    str_bytes(message) + be_bytes((timestamp as u64) as nat, 8)
}

/// The canonical wire payload of a login-plugin response.
pub open spec fn login_plugin_response_payload(id: i32, data: Option<Seq<u8>>) -> Seq<u8> {
    varnum_bytes((id as u32) as nat) + (match data {
        Some(d) => seq![bool_byte(true)] + d,
        None => seq![bool_byte(false)],
    })
}

/// The canonical wire payload of a plugin message.
pub open spec fn plugin_message_payload(channel: Seq<char>, data: Seq<u8>) -> Seq<u8> {
    str_bytes(channel) + data
}

/// Law: a handshake decodes back out of its canonical payload.
pub proof fn lemma_handshake_round_trip(version: i32, addr: Seq<char>, port: u16, next_state: i32)
    requires
        encode_utf8(addr).len() < 0x8000_0000,
    ensures
        ({
            let p = handshake_payload(version, addr, port, next_state);
            handshake_at(p, 0) == Ok::<((i32, Seq<char>, u16, i32), int), DecodeError>(
                ((version, addr, port, next_state), p.len() as int),
            )
        }),
{
    let p = handshake_payload(version, addr, port, next_state);
    let a = varnum_bytes((version as u32) as nat);
    let b = str_bytes(addr);
    let c = be_bytes(port as nat, 2);
    let d = varnum_bytes((next_state as u32) as nat);
    crate::data::lemma_be_bytes_len(port as nat, 2);
    assert(p.subrange(0, p.len() as int) =~= a + (b + c + d));
    lemma_varint_at_from(p, 0, version as u32, b + c + d);
    assert((version as u32) as i32 == version) by (bit_vector);
    let i1 = a.len() as int;
    assert(p.subrange(i1, p.len() as int) =~= b + (c + d));
    lemma_string_at_from(p, i1, addr, c + d);
    let i2 = i1 + b.len() as int;
    assert(p.subrange(i2, p.len() as int) =~= c + d);
    crate::data::lemma_pow256_concrete();
    lemma_be_at_from(p, i2, port as nat, 2, d);
    let i3 = i2 + 2;
    assert(p.subrange(i3, p.len() as int) =~= d + Seq::<u8>::empty());
    lemma_varint_at_from(p, i3, next_state as u32, Seq::<u8>::empty());
    assert((next_state as u32) as i32 == next_state) by (bit_vector);
}

/// Law: a login start decodes back out of its canonical payload.
pub proof fn lemma_login_start_round_trip(name: Seq<char>, uuid: u128)
    requires
        encode_utf8(name).len() < 0x8000_0000,
    ensures
        ({
            let p = login_start_payload(name, uuid);
            login_start_at(p, 0) == Ok::<((Seq<char>, u128), int), DecodeError>(
                ((name, uuid), p.len() as int),
            )
        }),
{
    let p = login_start_payload(name, uuid);
    let a = str_bytes(name);
    let c = be_bytes(uuid as nat, 16);
    crate::data::lemma_be_bytes_len(uuid as nat, 16);
    assert(p.subrange(0, p.len() as int) =~= a + (seq![1u8] + c));
    lemma_string_at_from(p, 0, name, seq![1u8] + c);
    let i1 = a.len() as int;
    assert(p[i1] == 1);
    assert(p.subrange(i1 + 1, p.len() as int) =~= c + Seq::<u8>::empty());
    crate::data::lemma_pow256_concrete();
    lemma_be_at_from(p, i1 + 1, uuid as nat, 16, Seq::<u8>::empty());
}

/// Law: a chat message decodes back out of its canonical payload.
pub proof fn lemma_chat_message_round_trip(message: Seq<char>, timestamp: i64)
    requires
        encode_utf8(message).len() < 0x8000_0000,
    ensures
        ({
            let p = chat_message_payload(message, timestamp);
            chat_message_at(p, 0) == Ok::<((Seq<char>, i64), int), DecodeError>(
                ((message, timestamp), p.len() as int),
            )
        }),
{
    let p = chat_message_payload(message, timestamp);
    let a = str_bytes(message);
    let c = be_bytes((timestamp as u64) as nat, 8);
    crate::data::lemma_be_bytes_len((timestamp as u64) as nat, 8);
    assert(p.subrange(0, p.len() as int) =~= a + c);
    lemma_string_at_from(p, 0, message, c);
    let i1 = a.len() as int;
    assert(p.subrange(i1, p.len() as int) =~= c + Seq::<u8>::empty());
    crate::data::lemma_pow256_concrete();
    lemma_be_at_from(p, i1, (timestamp as u64) as nat, 8, Seq::<u8>::empty());
    assert(((timestamp as u64) as u64) as i64 == timestamp) by (bit_vector);
}

/// Law: a login-plugin response decodes back out of its canonical
/// payload.
pub proof fn lemma_login_plugin_response_round_trip(id: i32, data: Option<Seq<u8>>)
    ensures
        ({
            let p = login_plugin_response_payload(id, data);
            login_plugin_response_at(p, 0) == Ok::<((i32, Option<Seq<u8>>), int), DecodeError>(
                ((id, data), p.len() as int),
            )
        }),
{
    let p = login_plugin_response_payload(id, data);
    let a = varnum_bytes((id as u32) as nat);
    match data {
        Some(d) => {
            assert(p.subrange(0, p.len() as int) =~= a + (seq![1u8] + d));
            lemma_varint_at_from(p, 0, id as u32, seq![1u8] + d);
            assert((id as u32) as i32 == id) by (bit_vector);
            let i1 = a.len() as int;
            assert(p[i1] == 1);
            assert(p.subrange(i1 + 1, p.len() as int) =~= d);
        },
        None => {
            assert(p.subrange(0, p.len() as int) =~= a + seq![0u8]);
            lemma_varint_at_from(p, 0, id as u32, seq![0u8]);
            assert((id as u32) as i32 == id) by (bit_vector);
            let i1 = a.len() as int;
            assert(p[i1] == 0);
        },
    }
}

/// Law: a plugin message decodes back out of its canonical payload.
pub proof fn lemma_plugin_message_round_trip(channel: Seq<char>, data: Seq<u8>)
    requires
        encode_utf8(channel).len() < 0x8000_0000,
    ensures
        ({
            let p = plugin_message_payload(channel, data);
            plugin_message_at(p, 0) == Ok::<((Seq<char>, Seq<u8>), int), DecodeError>(
                ((channel, data), p.len() as int),
            )
        }),
{
    let p = plugin_message_payload(channel, data);
    let a = str_bytes(channel);
    assert(p.subrange(0, p.len() as int) =~= a + data);
    lemma_string_at_from(p, 0, channel, data);
    let i1 = a.len() as int;
    assert(p.subrange(i1, p.len() as int) =~= data);
}

} // verus!
