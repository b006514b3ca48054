use vstd::prelude::*;
use vstd::string::StrSliceExecFns;
use vstd::utf8::encode_utf8;
use hmac::{Hmac, KeyInit, Mac};
use sha2::Sha256;
use crate::data::{
    frame_bytes, str_bytes, be_bytes, varnum_bytes, bool_byte, lemma_be_bytes_len,
    lemma_str_bytes_len, lemma_utf8_len,
};
use crate::clientbound::{
    ClientBoundPacket, encode_packet, KeepAlive, StatusResponse, PingResponse, LoginDisconnect,
    Disconnect, SystemChatMessage, LoginPluginRequest, LoginSuccess,
};
use crate::config::{Config, LoginMode};

verus! {

/// An identity bound to a session after a successful login.
#[derive(Debug, Clone, PartialEq)]
pub struct Player {
    pub name: String,
    pub uuid: u128,
}

/// The authoritative per-connection record the server loop owns: the
/// socket itself, the reader thread and its channel stay outside.
#[derive(Debug, Clone, PartialEq)]
pub struct ClientSession {
    pub id: i32,
    pub verified: bool,
    pub closed: bool,
    pub player: Option<Player>,
}

/// One outbound intent from the plugin bridge, drained once per tick.
/// The `player` field names its target by display name or by hyphenated
/// identifier text; message and reason carry serialized JSON documents.
#[derive(Debug, Clone, PartialEq)]
pub enum Response {
    Message { player: String, message: String },
    Broadcast { message: String },
    Disconnect { player: String, reason: String },
}

/// What the loop around the server must do after an event: write bytes
/// to a socket, close a socket, or notify the plugin bridge.
#[derive(Debug, PartialEq)]
pub enum Action {
    Send { client: i32, bytes: Vec<u8> },
    Close { client: i32 },
    PlayerJoin { player: Player },
    PlayerLeave { player: Player },
    ChatEvent { player: Player, message: String },
    CommandEvent { player: Player, command: String, args: String },
    PluginMessageEvent { player: Player, channel: String, data: Vec<u8> },
}

impl Player {
    /// A field-exact copy.
    pub fn duplicate(&self) -> (r: Player)
        ensures
            r == *self,
    {
        Player { name: self.name.clone(), uuid: self.uuid }
    }
}

impl ClientSession {
    /// A field-exact copy.
    pub fn duplicate(&self) -> (r: ClientSession)
        ensures
            r == *self,
    {
        ClientSession {
            id: self.id,
            verified: self.verified,
            closed: self.closed,
            player: match &self.player {
                Some(p) => Some(p.duplicate()),
                None => None,
            },
        }
    }
}

// ---------------------------------------------------------------------------
// Outside calls
// ---------------------------------------------------------------------------

/// The keyed-hash tag of `data` under `key`: a function of the two
/// arguments alone.
pub uninterp spec fn hmac_sha256(key: Seq<u8>, data: Seq<u8>) -> Seq<u8>;

/// Relies on `Hmac::<Sha256>` of the hmac crate: `new_from_slice`
/// accepts keys of any length, and `verify_slice` accepts exactly the
/// full 32-byte tag of `data` under `key`, compared in constant time.
#[verifier::external_body]
fn hmac_sha256_verify(key: &[u8], data: &[u8], sig: &[u8]) -> (r: bool)
    ensures
        r ==> sig@ == hmac_sha256(key@, data@) && sig@.len() == 32,
        !r ==> sig@ != hmac_sha256(key@, data@),
{
    let mut mac = match Hmac::<Sha256>::new_from_slice(key) {
        Ok(mac) => mac,
        Err(_) => {
            return false;
        },
    };
    mac.update(data);
    mac.verify_slice(sig).is_ok()
}

/// The hyphenated text of a 128-bit identifier: a function of its bits
/// alone.
pub uninterp spec fn uuid_text(u: u128) -> Seq<char>;

/// Relies on `uuid::Uuid`: `from_u128` reads the bits back unchanged and
/// the `Display` form is the hyphenated text of those bits.
#[verifier::external_body]
fn uuid_to_string(u: u128) -> (r: String)
    ensures
        r@ == uuid_text(u),
{
    uuid::Uuid::from_u128(u).to_string()
}

// ---------------------------------------------------------------------------
// Fixed protocol texts
// ---------------------------------------------------------------------------

/// The server-list document sent for a status request.
pub open spec fn status_json() -> Seq<char> {
    "{\"version\":{\"name\":\"1.19.3\",\"protocol\":761}}"@
}

fn status_json_str() -> (r: &'static str)
    ensures
        r@ == status_json(),
{
    "{\"version\":{\"name\":\"1.19.3\",\"protocol\":761}}"
}

/// The reason sent when a second session claims a connected identity.
pub open spec fn duplicate_login_reason() -> Seq<char> {
    "{\"translate\":\"multiplayer.disconnect.duplicate_login\"}"@
}

fn duplicate_login_reason_str() -> (r: &'static str)
    ensures
        r@ == duplicate_login_reason(),
{
    "{\"translate\":\"multiplayer.disconnect.duplicate_login\"}"
}

/// The reason sent when a claimed name exceeds the wire limit.
pub open spec fn invalid_name_reason() -> Seq<char> {
    "{\"text\":\"invalid player name\"}"@
}

fn invalid_name_reason_str() -> (r: &'static str)
    ensures
        r@ == invalid_name_reason(),
{
    "{\"text\":\"invalid player name\"}"
}

/// The reason sent when proxy-verified mode gets no forwarded payload.
pub open spec fn proxy_required_reason() -> Seq<char> {
    "{\"color\":\"red\",\"text\":\"This server can only be connected to via a Velocity proxy\"}"@
}

fn proxy_required_reason_str() -> (r: &'static str)
    ensures
        r@ == proxy_required_reason(),
{
    "{\"color\":\"red\",\"text\":\"This server can only be connected to via a Velocity proxy\"}"
}

/// The reason sent when the forwarded signature does not verify.
pub open spec fn secret_mismatch_reason() -> Seq<char> {
    "{\"text\":\"Could not verify secret. Ensure that the secrets configured for Velocity and Quectocraft match.\"}"@
}

fn secret_mismatch_reason_str() -> (r: &'static str)
    ensures
        r@ == secret_mismatch_reason(),
{
    "{\"text\":\"Could not verify secret. Ensure that the secrets configured for Velocity and Quectocraft match.\"}"
}

/// The reason sent when a session reaches the finalize step unverified.
pub open spec fn unverified_reason() -> Seq<char> {
    "{\"color\":\"red\",\"text\":\"Failed to verify your connection\"}"@
}

fn unverified_reason_str() -> (r: &'static str)
    ensures
        r@ == unverified_reason(),
{
    "{\"color\":\"red\",\"text\":\"Failed to verify your connection\"}"
}

/// The reason sent for a plugin response that answers no open request.
pub open spec fn bad_plugin_response_reason() -> Seq<char> {
    "{\"text\":\"bad plugin response\"}"@
}

fn bad_plugin_response_reason_str() -> (r: &'static str)
    ensures
        r@ == bad_plugin_response_reason(),
{
    "{\"text\":\"bad plugin response\"}"
}

/// The answer to the built-in version command.
pub open spec fn version_chat_json() -> Seq<char> {
    "{\"color\":\"green\",\"text\":\"QuectoCraft version 0.1.0\"}"@
}

fn version_chat_json_str() -> (r: &'static str)
    ensures
        r@ == version_chat_json(),
{
    "{\"color\":\"green\",\"text\":\"QuectoCraft version 0.1.0\"}"
}

// ---------------------------------------------------------------------------
// Frame builders
// ---------------------------------------------------------------------------

/// The framed keep-alive carrying nonce `n`.
pub open spec fn keep_alive_frame(n: i64) -> Seq<u8> {
    frame_bytes(0x1f, be_bytes((n as u64) as nat, 8))
}

fn encode_keep_alive(n: i64) -> (r: Vec<u8>)
    ensures
        r@ == keep_alive_frame(n),
{
    proof {
        lemma_be_bytes_len((n as u64) as nat, 8);
    }
    encode_packet(KeepAlive { data: n })
}

/// The framed ping echo carrying nonce `n`.
pub open spec fn ping_response_frame(n: i64) -> Seq<u8> {
    frame_bytes(0x01, be_bytes((n as u64) as nat, 8))
}

fn encode_ping_response(n: i64) -> (r: Vec<u8>)
    ensures
        r@ == ping_response_frame(n),
{
    proof {
        lemma_be_bytes_len((n as u64) as nat, 8);
    }
    encode_packet(PingResponse { data: n })
}

/// The framed status response carrying document `s`.
pub open spec fn status_response_frame(s: Seq<char>) -> Seq<u8> {
    frame_bytes(0x00, str_bytes(s))
}

fn encode_status_response(data: &str) -> (r: Vec<u8>)
    requires
        encode_utf8(data@).len() <= 131071,
    ensures
        r@ == status_response_frame(data@),
{
    proof {
        lemma_str_bytes_len(data@);
    }
    encode_packet(StatusResponse { data: data.to_owned() })
}

/// The framed login-state disconnect carrying reason `s`.
pub open spec fn login_disconnect_frame(s: Seq<char>) -> Seq<u8> {
    frame_bytes(0x00, str_bytes(s))
}

fn encode_login_disconnect(reason: &str) -> (r: Vec<u8>)
    requires
        encode_utf8(reason@).len() <= 1048579,
    ensures
        r@ == login_disconnect_frame(reason@),
{
    proof {
        lemma_str_bytes_len(reason@);
    }
    encode_packet(LoginDisconnect { reason: reason.to_owned() })
}

/// The framed play-state disconnect carrying reason `s`.
pub open spec fn disconnect_frame(s: Seq<char>) -> Seq<u8> {
    frame_bytes(0x17, str_bytes(s))
}

fn encode_disconnect(reason: &str) -> (r: Vec<u8>)
    requires
        encode_utf8(reason@).len() <= 1048579,
    ensures
        r@ == disconnect_frame(reason@),
{
    proof {
        lemma_str_bytes_len(reason@);
    }
    encode_packet(Disconnect { reason: reason.to_owned() })
}

/// The framed system chat line carrying document `s`, not overlaid.
pub open spec fn system_chat_frame(s: Seq<char>) -> Seq<u8> {
    frame_bytes(0x60, str_bytes(s) + seq![bool_byte(false)])
}

fn encode_system_chat(message: &str) -> (r: Vec<u8>)
    requires
        encode_utf8(message@).len() <= 1048579,
    ensures
        r@ == system_chat_frame(message@),
{
    proof {
        lemma_str_bytes_len(message@);
    }
    encode_packet(SystemChatMessage { message: message.to_owned(), overlay: false })
}

/// The framed login-plugin request: request ID, channel, payload.
pub open spec fn plugin_request_frame(id: i32, channel: Seq<char>, data: Seq<u8>) -> Seq<u8> {
    frame_bytes(0x04, varnum_bytes((id as u32) as nat) + str_bytes(channel) + data)
}

fn encode_plugin_request(id: i32, channel: &str, data: Vec<u8>) -> (r: Vec<u8>)
    requires
        encode_utf8(channel@).len() <= 131071,
        data@.len() <= 0x1000,
    ensures
        r@ == plugin_request_frame(id, channel@, data@),
{
    proof {
        lemma_str_bytes_len(channel@);
        crate::data::lemma_pow128_concrete();
        crate::data::lemma_varnum_bytes_len((id as u32) as nat, 5);
    }
    encode_packet(LoginPluginRequest { id, channel: channel.to_owned(), data })
}

/// The framed login grant: identifier, name, empty property list.
pub open spec fn login_success_frame(name: Seq<char>, uuid: u128) -> Seq<u8> {
    frame_bytes(0x02, be_bytes(uuid as nat, 16) + str_bytes(name) + varnum_bytes(0))
}

fn encode_login_success(name: &String, uuid: u128) -> (r: Vec<u8>)
    requires
        encode_utf8(name@).len() <= 67,
    ensures
        r@ == login_success_frame(name@, uuid),
{
    proof {
        lemma_str_bytes_len(name@);
        lemma_be_bytes_len(uuid as nat, 16);
    }
    encode_packet(LoginSuccess { uuid, name: name.clone() })
}

// ---------------------------------------------------------------------------
// Spec views of the session set
// ---------------------------------------------------------------------------

/// Some session in `s` already owns identity `uuid`.
pub open spec fn has_uuid(s: Seq<ClientSession>, uuid: u128) -> bool
    decreases s.len(),
{
    if s.len() == 0 {
        false
    } else {
        has_uuid(s.drop_last(), uuid) || (s.last().player matches Some(p) && p.uuid == uuid)
    }
}

/// `has_uuid` said index-wise.
pub proof fn lemma_has_uuid_exists(s: Seq<ClientSession>, uuid: u128)
    ensures
        has_uuid(s, uuid) <==> exists|j: int|
            0 <= j < s.len() && ((#[trigger] s[j]).player matches Some(p) && p.uuid == uuid),
    decreases s.len(),
{
    if s.len() == 0 {
    } else {
        lemma_has_uuid_exists(s.drop_last(), uuid);
        if has_uuid(s.drop_last(), uuid) {
            let j = choose|j: int|
                0 <= j < s.drop_last().len() && ((#[trigger] s.drop_last()[j]).player matches Some(
                    p,
                ) && p.uuid == uuid);
            assert(s[j] == s.drop_last()[j]);
        }
        if s.last().player matches Some(p) && p.uuid == uuid {
            assert(s[s.len() - 1].player matches Some(p) && p.uuid == uuid);
        }
        if exists|j: int|
            0 <= j < s.len() && ((#[trigger] s[j]).player matches Some(p) && p.uuid == uuid) {
            let j = choose|j: int|
                0 <= j < s.len() && ((#[trigger] s[j]).player matches Some(p) && p.uuid == uuid);
            if j < s.len() - 1 {
                assert(s.drop_last()[j] == s[j]);
            }
        }
    }
}

/// The ids of the sessions that carry a player, in order.
pub open spec fn players_of(s: Seq<ClientSession>) -> Seq<i32>
    decreases s.len(),
{
    if s.len() == 0 {
        seq![]
    } else {
        players_of(s.drop_last()) + (if s.last().player is Some {
            seq![s.last().id]
        } else {
            seq![]
        })
    }
}

/// The ids of the sessions whose player matches `target` by name or by
/// identifier text, in order.
pub open spec fn matching_ids(s: Seq<ClientSession>, target: Seq<char>) -> Seq<i32>
    decreases s.len(),
{
    if s.len() == 0 {
        seq![]
    } else {
        matching_ids(s.drop_last(), target) + (if target_matches(s.last(), target) {
            seq![s.last().id]
        } else {
            seq![]
        })
    }
}

/// The session's player answers to `target`, by name or by identifier
/// text.
pub open spec fn target_matches(c: ClientSession, target: Seq<char>) -> bool {
    c.player matches Some(p) && (p.name@ == target || uuid_text(p.uuid) == target)
}

/// The index of the first session whose player answers to `target`.
pub open spec fn first_target(s: Seq<ClientSession>, target: Seq<char>) -> Option<int>
    decreases s.len(),
{
    if s.len() == 0 {
        None
    } else if target_matches(s[0], target) {
        Some(0)
    } else {
        match first_target(s.drop_first(), target) {
            None => None,
            Some(j) => Some(j + 1),
        }
    }
}

proof fn lemma_first_target_found(s: Seq<ClientSession>, target: Seq<char>, j: int)
    requires
        0 <= j < s.len(),
        target_matches(s[j], target),
        forall|k: int| 0 <= k < j ==> !target_matches(#[trigger] s[k], target),
    ensures
        first_target(s, target) == Some(j),
    decreases j,
{
    if j == 0 {
    } else {
        assert(!target_matches(s[0], target));
        lemma_first_target_found(s.drop_first(), target, j - 1);
    }
}

proof fn lemma_first_target_none(s: Seq<ClientSession>, target: Seq<char>)
    requires
        forall|k: int| 0 <= k < s.len() ==> !target_matches(#[trigger] s[k], target),
    ensures
        first_target(s, target) is None,
    decreases s.len(),
{
    if s.len() > 0 {
        lemma_first_target_none(s.drop_first(), target);
    }
}

/// The sessions that are still open, in order.
pub open spec fn retain_open(s: Seq<ClientSession>) -> Seq<ClientSession>
    decreases s.len(),
{
    if s.len() == 0 {
        seq![]
    } else {
        retain_open(s.drop_last()) + (if s.last().closed {
            seq![]
        } else {
            seq![s.last()]
        })
    }
}

/// Every identity held in the open subset is held in the whole set.
proof fn lemma_retain_open_has_uuid(s: Seq<ClientSession>, uuid: u128)
    ensures
        has_uuid(retain_open(s), uuid) ==> has_uuid(s, uuid),
    decreases s.len(),
{
    if s.len() != 0 {
        lemma_retain_open_has_uuid(s.drop_last(), uuid);
        if !s.last().closed {
            assert(retain_open(s).drop_last() =~= retain_open(s.drop_last()));
        }
    }
}

/// `acts` writes `frame` to exactly the clients `ids` names, in order.
pub open spec fn sends_frame_to(acts: Seq<Action>, ids: Seq<i32>, frame: Seq<u8>) -> bool {
    &&& acts.len() == ids.len()
    &&& forall|k: int|
        0 <= k < acts.len() ==> ((#[trigger] acts[k]) matches Action::Send { client, bytes }
            && client == ids[k] && bytes@ == frame)
}

/// `acts` writes `frame` to session `c` and closes it, and `c2` is `c`
/// marked closed.
pub open spec fn sends_then_closes(
    c: ClientSession,
    c2: ClientSession,
    acts: Seq<Action>,
    frame: Seq<u8>,
) -> bool {
    &&& c2 == (ClientSession { closed: true, ..c })
    &&& acts.len() == 2
    &&& acts[0] matches Action::Send { client, bytes } && client == c.id && bytes@ == frame
    &&& acts[1] == (Action::Close { client: c.id })
}

/// `acts` writes `frame` to session `c` and nothing else.
pub open spec fn sends_one(c: ClientSession, acts: Seq<Action>, frame: Seq<u8>) -> bool {
    &&& acts.len() == 1
    &&& acts[0] matches Action::Send { client, bytes } && client == c.id && bytes@ == frame
}

// ---------------------------------------------------------------------------
// Keep-alive cadence
// ---------------------------------------------------------------------------

/// How many of the next `t` ticks fire a keep-alive round, starting from
/// counter value `c`.
pub open spec fn ticks_fired(c: nat, interval: nat, t: nat) -> nat
    decreases t,
{
    if t == 0 {
        0
    } else if c + 1 == interval {
        (1 + ticks_fired(0, interval, (t - 1) as nat)) as nat
    } else {
        ticks_fired(c + 1, interval, (t - 1) as nat)
    }
}

/// Law: across `t` ticks from counter `c`, keep-alives fire exactly
/// `(c + t) / interval` times; from a fresh counter that is `t / interval`.
pub proof fn lemma_keep_alive_cadence(c: nat, interval: nat, t: nat)
    requires
        interval >= 1,
        c < interval,
    ensures
        ticks_fired(c, interval, t) == ((c + t) as int) / (interval as int),
    decreases t,
{
    if t == 0 {
        vstd::arithmetic::div_mod::lemma_basic_div(c as int, interval as int);
    } else if c + 1 == interval {
        lemma_keep_alive_cadence(0, interval, (t - 1) as nat);
        vstd::arithmetic::div_mod::lemma_div_plus_one((t - 1) as int, interval as int);
    } else {
        lemma_keep_alive_cadence(c + 1, interval, (t - 1) as nat);
    }
}

// ---------------------------------------------------------------------------
// The server core
// ---------------------------------------------------------------------------

/// The authoritative session state: the live session set, the framed
/// command graph and world data the bootstrap sends, the trust
/// configuration, and the keep-alive counter. Sockets, threads and the
/// plugin host live outside and exchange events and actions with it.
pub struct NetworkServer {
    pub config: Config,
    pub clients: Vec<ClientSession>,
    pub commands_frame: Vec<u8>,
    pub registry_codec: Vec<u8>,
    pub tick_counter: u64,
    pub keep_alive_interval: u64,
}

impl NetworkServer {
    /// The server invariant: at most one session per identity, every
    /// bound name within the login-grant wire limit, the counter inside
    /// its interval, and the stored world data within the bootstrap's
    /// size budget.
    pub open spec fn wf(&self) -> bool {
        &&& forall|i: int, j: int|
            0 <= i < j < self.clients@.len() && (#[trigger] self.clients@[i]).player is Some && (
            #[trigger] self.clients@[j]).player is Some
                ==> self.clients@[i].player->0.uuid != self.clients@[j].player->0.uuid
        &&& forall|i: int|
            0 <= i < self.clients@.len() && (#[trigger] self.clients@[i]).player is Some
                ==> encode_utf8(self.clients@[i].player->0.name@).len() <= 67
        &&& self.keep_alive_interval >= 1
        &&& self.tick_counter < self.keep_alive_interval
        &&& self.registry_codec@.len() <= 0x100000
    }

    /// Builds the core. Refuses a command graph whose strings or counts
    /// break the wire limits, a graph whose encoding leaves no room for
    /// a frame header, an oversized registry blob, or a zero keep-alive
    /// interval.
    pub fn new(
        config: Config,
        registry_codec: Vec<u8>,
        commands: &crate::command::Commands,
        keep_alive_interval: u64,
    ) -> (r: Option<NetworkServer>)
        ensures
            match r {
                Some(s) => {
                    &&& s.wf()
                    &&& s.config == config
                    &&& s.clients@ =~= Seq::<ClientSession>::empty()
                    &&& s.commands_frame@ == frame_bytes(0x0e, commands.payload_spec())
                    &&& s.registry_codec@ == registry_codec@
                    &&& s.tick_counter == 0
                    &&& s.keep_alive_interval == keep_alive_interval
                },
                None => !ClientBoundPacket::valid(commands) || commands.payload_spec().len() + 5
                    >= 0x8000_0000 || registry_codec@.len() > 0x100000 || keep_alive_interval == 0,
            },
    {
        if keep_alive_interval == 0 {
            return None;
        }
        if registry_codec.len() > 0x100000 {
            return None;
        }
        if !commands.check_valid() {
            return None;
        }
        let mut encoder = crate::data::PacketEncoder::new();
        commands.encode(&mut encoder);
        let payload = encoder.to_data();
        if payload.len() >= 0x8000_0000usize - 5 {
            return None;
        }
        assert(payload@ =~= commands.payload_spec());
        let commands_frame = crate::data::finalize_packet(payload, 0x0e);
        Some(
            NetworkServer {
                config,
                clients: Vec::new(),
                commands_frame,
                registry_codec,
                tick_counter: 0,
                keep_alive_interval,
            },
        )
    }

    /// Checks the invariant at run time, for callers outside the proof:
    /// `new` establishes it and every method keeps it, so this can only
    /// fail on a value whose fields were altered by hand.
    pub fn wf_check(&self) -> (b: bool)
        ensures
            b == self.wf(),
    {
        if self.keep_alive_interval < 1 {
            return false;
        }
        if self.tick_counter >= self.keep_alive_interval {
            return false;
        }
        if self.registry_codec.len() > 0x100000 {
            return false;
        }
        let n = self.clients.len();
        let mut i: usize = 0;
        while i < n
            invariant
                n == self.clients@.len(),
                i <= n,
                forall|a: int, b: int|
                    0 <= a < b < n && a < i && (#[trigger] self.clients@[a]).player is Some && (
                    #[trigger] self.clients@[b]).player is Some
                        ==> self.clients@[a].player->0.uuid != self.clients@[b].player->0.uuid,
                forall|a: int|
                    0 <= a < i && (#[trigger] self.clients@[a]).player is Some ==> encode_utf8(
                        self.clients@[a].player->0.name@,
                    ).len() <= 67,
            decreases n - i,
        {
            let p = match &self.clients[i].player {
                Some(p) => Some(p.duplicate()),
                None => None,
            };
            if let Some(p) = p {
                if p.name.as_str().as_bytes().len() > 67 {
                    return false;
                }
                let mut j: usize = i + 1;
                while j < n
                    invariant
                        n == self.clients@.len(),
                        i < j <= n,
                        self.clients@[i as int].player == Some(p),
                        forall|b: int|
                            i < b < j && (#[trigger] self.clients@[b]).player is Some
                                ==> self.clients@[b].player->0.uuid != p.uuid,
                    decreases n - j,
                {
                    match &self.clients[j].player {
                        Some(q) => {
                            if q.uuid == p.uuid {
                                return false;
                            }
                        },
                        None => {},
                    }
                    j = j + 1;
                }
            }
            i = i + 1;
        }
        true
    }

    /// Admits a freshly accepted connection into the session set.
    pub fn accept_client(&mut self, id: i32)
        requires
            old(self).wf(),
        ensures
            final(self).wf(),
            final(self).clients@ == old(self).clients@.push(
                ClientSession { id, verified: false, closed: false, player: None },
            ),
            final(self).config == old(self).config,
            final(self).commands_frame == old(self).commands_frame,
            final(self).registry_codec == old(self).registry_codec,
            final(self).tick_counter == old(self).tick_counter,
            final(self).keep_alive_interval == old(self).keep_alive_interval,
    {
        self.clients.push(ClientSession { id, verified: false, closed: false, player: None });
        proof {
            assert forall|i: int, j: int|
                0 <= i < j < self.clients@.len() && (#[trigger] self.clients@[i]).player is Some
                    && (#[trigger] self.clients@[j]).player is Some implies self.clients@[i].player->0.uuid
                != self.clients@[j].player->0.uuid by {
                assert(j < self.clients@.len() - 1);
            }
        }
    }

    /// Emits one keep-alive to every player-bound session.
    pub fn send_keep_alive(&mut self) -> (acts: Vec<Action>)
        requires
            old(self).wf(),
        ensures
            *final(self) == *old(self),
            final(self).wf(),
            sends_frame_to(acts@, players_of(old(self).clients@), keep_alive_frame(0)),
    {
        let mut acts: Vec<Action> = Vec::new();
        let n = self.clients.len();
        let mut i: usize = 0;
        while i < n
            invariant
                n == self.clients@.len(),
                i <= n,
                sends_frame_to(acts@, players_of(self.clients@.take(i as int)), keep_alive_frame(0)),
            decreases n - i,
        {
            let ghost pre = acts@;
            if self.clients[i].player.is_some() {
                let bytes = encode_keep_alive(0);
                acts.push(Action::Send { client: self.clients[i].id, bytes });
            }
            proof {
                let cs = self.clients@;
                assert(cs.take(i + 1).drop_last() =~= cs.take(i as int));
                assert(cs.take(i + 1).last() == cs[i as int]);
            }
            i = i + 1;
        }
        proof {
            assert(self.clients@.take(n as int) =~= self.clients@);
        }
        acts
    }

    /// Advances the tick counter; on every `keep_alive_interval`-th call
    /// it fires a keep-alive round, otherwise it does nothing.
    pub fn tick(&mut self) -> (acts: Vec<Action>)
        requires
            old(self).wf(),
        ensures
            final(self).wf(),
            final(self).clients == old(self).clients,
            final(self).config == old(self).config,
            final(self).commands_frame == old(self).commands_frame,
            final(self).registry_codec == old(self).registry_codec,
            final(self).keep_alive_interval == old(self).keep_alive_interval,
            if old(self).tick_counter + 1 == old(self).keep_alive_interval {
                final(self).tick_counter == 0 && sends_frame_to(
                    acts@,
                    players_of(old(self).clients@),
                    keep_alive_frame(0),
                )
            } else {
                final(self).tick_counter == old(self).tick_counter + 1 && acts@ =~= Seq::<
                    Action,
                >::empty()
            },
    {
        if self.tick_counter + 1 == self.keep_alive_interval {
            self.tick_counter = 0;
            self.send_keep_alive()
        } else {
            self.tick_counter = self.tick_counter + 1;
            Vec::new()
        }
    }

    /// Records that a connection's socket failed or its reader hung up:
    /// the session is marked closed and, if it carried a player, exactly
    /// one leave notification comes back. A session already closed
    /// yields nothing.
    pub fn connection_lost(&mut self, i: usize) -> (acts: Vec<Action>)
        requires
            old(self).wf(),
            i < old(self).clients@.len(),
        ensures
            final(self).wf(),
            final(self).clients@.len() == old(self).clients@.len(),
            forall|k: int|
                0 <= k < old(self).clients@.len() && k != i ==> final(self).clients@[k] == old(
                    self,
                ).clients@[k],
            final(self).config == old(self).config,
            final(self).commands_frame == old(self).commands_frame,
            final(self).registry_codec == old(self).registry_codec,
            final(self).tick_counter == old(self).tick_counter,
            final(self).keep_alive_interval == old(self).keep_alive_interval,
            ({
                let c = old(self).clients@[i as int];
                if c.closed {
                    final(self).clients@[i as int] == c && acts@ =~= Seq::<Action>::empty()
                } else {
                    final(self).clients@[i as int] == (ClientSession { closed: true, ..c })
                        && acts@ =~= (match c.player {
                        Some(p) => seq![
                            Action::PlayerLeave { player: p },
                            Action::Close { client: c.id },
                        ],
                        None => seq![Action::Close { client: c.id }],
                    })
                }
            }),
    {
        let mut acts: Vec<Action> = Vec::new();
        if self.clients[i].closed {
            return acts;
        }
        let id = self.clients[i].id;
        match &self.clients[i].player {
            Some(p) => {
                acts.push(Action::PlayerLeave { player: p.duplicate() });
            },
            None => {},
        }
        acts.push(Action::Close { client: id });
        self.clients[i].closed = true;
        proof {
            assert(final(self).clients@[i as int] == (ClientSession {
                closed: true,
                ..old(self).clients@[i as int]
            }));
            match old(self).clients@[i as int].player {
                Some(p) => {
                    assert(acts@ =~= seq![
                        Action::PlayerLeave { player: p },
                        Action::Close { client: old(self).clients@[i as int].id },
                    ]);
                },
                None => {
                    assert(acts@ =~= seq![
                        Action::Close { client: old(self).clients@[i as int].id },
                    ]);
                },
            }
        }
        acts
    }

    /// Drops every closed session from the set, after the tick's work is
    /// done, so the set is never mutated while it is walked.
    pub fn remove_closed(&mut self)
        requires
            old(self).wf(),
        ensures
            final(self).wf(),
            final(self).clients@ == retain_open(old(self).clients@),
            final(self).config == old(self).config,
            final(self).commands_frame == old(self).commands_frame,
            final(self).registry_codec == old(self).registry_codec,
            final(self).tick_counter == old(self).tick_counter,
            final(self).keep_alive_interval == old(self).keep_alive_interval,
    {
        let mut kept: Vec<ClientSession> = Vec::new();
        let n = self.clients.len();
        let mut i: usize = 0;
        while i < n
            invariant
                n == self.clients@.len(),
                i <= n,
                kept@ == retain_open(self.clients@.take(i as int)),
            decreases n - i,
        {
            if !self.clients[i].closed {
                kept.push(self.clients[i].duplicate());
            }
            proof {
                let cs = self.clients@;
                assert(cs.take(i + 1).drop_last() =~= cs.take(i as int));
                assert(cs.take(i + 1).last() == cs[i as int]);
            }
            i = i + 1;
        }
        proof {
            assert(self.clients@.take(n as int) =~= self.clients@);
        }
        self.clients = kept;
        proof {
            lemma_retain_open_wf(old(self).clients@);
        }
    }
}

/// Filtering a session set with unique identities and bounded names
/// keeps both properties.
proof fn lemma_retain_open_wf(s: Seq<ClientSession>)
    requires
        forall|i: int, j: int|
            0 <= i < j < s.len() && (#[trigger] s[i]).player is Some && (#[trigger] s[j]).player is Some
                ==> s[i].player->0.uuid != s[j].player->0.uuid,
        forall|i: int|
            0 <= i < s.len() && (#[trigger] s[i]).player is Some ==> encode_utf8(
                s[i].player->0.name@,
            ).len() <= 67,
    ensures
        ({
            let r = retain_open(s);
            &&& forall|i: int, j: int|
                0 <= i < j < r.len() && (#[trigger] r[i]).player is Some && (
                #[trigger] r[j]).player is Some ==> r[i].player->0.uuid != r[j].player->0.uuid
            &&& forall|i: int|
                0 <= i < r.len() && (#[trigger] r[i]).player is Some ==> encode_utf8(
                    r[i].player->0.name@,
                ).len() <= 67
        }),
    decreases s.len(),
{
    if s.len() != 0 {
        let pre = s.drop_last();
        assert forall|i: int, j: int|
            0 <= i < j < pre.len() && (#[trigger] pre[i]).player is Some && (
            #[trigger] pre[j]).player is Some implies pre[i].player->0.uuid
            != pre[j].player->0.uuid by {
            assert(pre[i] == s[i] && pre[j] == s[j]);
        }
        assert forall|i: int|
            0 <= i < pre.len() && (#[trigger] pre[i]).player is Some implies encode_utf8(
            pre[i].player->0.name@,
        ).len() <= 67 by {
            assert(pre[i] == s[i]);
        }
        lemma_retain_open_wf(pre);
        let r0 = retain_open(pre);
        let r = retain_open(s);
        if !s.last().closed {
            assert(r =~= r0.push(s.last()));
            if s.last().player is Some {
                let u = s.last().player->0.uuid;
                assert(!has_uuid(r0, u)) by {
                    lemma_retain_open_has_uuid(pre, u);
                    if has_uuid(pre, u) {
                        lemma_has_uuid_exists(pre, u);
                        let j = choose|j: int|
                            0 <= j < pre.len() && ((#[trigger] pre[j]).player matches Some(p)
                                && p.uuid == u);
                        assert(s[j] == pre[j]);
                        assert(s[j].player->0.uuid != s[s.len() - 1].player->0.uuid);
                    }
                }
                lemma_has_uuid_exists(r0, u);
                assert forall|i: int, j: int|
                    0 <= i < j < r.len() && (#[trigger] r[i]).player is Some && (
                    #[trigger] r[j]).player is Some implies r[i].player->0.uuid
                    != r[j].player->0.uuid by {
                    if j < r.len() - 1 {
                        assert(r[i] == r0[i] && r[j] == r0[j]);
                    } else {
                        assert(r[i] == r0[i]);
                        assert(r[j] == s.last());
                    }
                }
            } else {
                assert forall|i: int, j: int|
                    0 <= i < j < r.len() && (#[trigger] r[i]).player is Some && (
                    #[trigger] r[j]).player is Some implies r[i].player->0.uuid
                    != r[j].player->0.uuid by {
                    assert(j < r.len() - 1);
                    assert(r[i] == r0[i] && r[j] == r0[j]);
                }
            }
            assert forall|i: int|
                0 <= i < r.len() && (#[trigger] r[i]).player is Some implies encode_utf8(
                r[i].player->0.name@,
            ).len() <= 67 by {
                if i < r.len() - 1 {
                    assert(r[i] == r0[i]);
                } else {
                    assert(r[i] == s.last());
                }
            }
        } else {
            assert(r =~= r0);
        }
    }
}

// ---------------------------------------------------------------------------
// Command-line splitting
// ---------------------------------------------------------------------------

/// The index of the first space in a command line, if any.
pub open spec fn first_space(s: Seq<char>) -> Option<int>
    decreases s.len(),
{
    if s.len() == 0 {
        None
    } else if s[0] == ' ' {
        Some(0)
    } else {
        match first_space(s.drop_first()) {
            None => None,
            Some(k) => Some(k + 1),
        }
    }
}

/// The command word of a line: everything before the first space, or the
/// whole line.
pub open spec fn command_word(s: Seq<char>) -> Seq<char> {
    match first_space(s) {
        Some(k) => s.subrange(0, k),
        None => s,
    }
}

/// The argument text of a line: everything after the first space, or
/// nothing.
pub open spec fn command_args(s: Seq<char>) -> Seq<char> {
    match first_space(s) {
        Some(k) => s.subrange(k + 1, s.len() as int),
        None => Seq::empty(),
    }
}

proof fn lemma_first_space_found(s: Seq<char>, k: int)
    requires
        0 <= k < s.len(),
        s[k] == ' ',
        forall|j: int| 0 <= j < k ==> s[j] != ' ',
    ensures
        first_space(s) == Some(k),
    decreases k,
{
    if k > 0 {
        lemma_first_space_found(s.drop_first(), k - 1);
    }
}

proof fn lemma_first_space_none(s: Seq<char>)
    requires
        forall|j: int| 0 <= j < s.len() ==> s[j] != ' ',
    ensures
        first_space(s) is None,
    decreases s.len(),
{
    if s.len() > 0 {
        lemma_first_space_none(s.drop_first());
    }
}

/// Splits a typed command line into its command word and argument text.
fn split_command(msg: &str) -> (r: (String, String))
    ensures
        r.0@ == command_word(msg@),
        r.1@ == command_args(msg@),
{
    let n = msg.unicode_len();
    let mut k: usize = 0;
    while k < n
        invariant
            n == msg@.len(),
            k <= n,
            forall|j: int| 0 <= j < k ==> msg@[j] != ' ',
        decreases n - k,
    {
        if msg.get_char(k) == ' ' {
            proof {
                lemma_first_space_found(msg@, k as int);
            }
            let cmd = msg.substring_char(0, k);
            let args = msg.substring_char(k + 1, n);
            return (cmd.to_owned(), args.to_owned());
        }
        k = k + 1;
    }
    proof {
        lemma_first_space_none(msg@);
    }
    (msg.to_owned(), String::new())
}

/// Recognizes the built-in version command.
fn is_qc_command(s: &str) -> (b: bool)
    ensures
        b == (s@ == "qc"@),
{
    proof {
        reveal_strlit("qc");
    }
    let n = s.unicode_len();
    if n != 2 {
        return false;
    }
    let r = s.get_char(0) == 'q' && s.get_char(1) == 'c';
    proof {
        if r {
            assert(s@ =~= "qc"@);
        } else {
            assert(s@ != "qc"@);
        }
    }
    r
}

// ---------------------------------------------------------------------------
// The login flow and the bootstrap
// ---------------------------------------------------------------------------

/// The play-state bootstrap's world metadata, with the given entity id
/// and registry blob.
pub open spec fn bootstrap_login_play_payload(eid: i32, registry: Seq<u8>) -> Seq<u8> {
    be_bytes((eid as u32) as nat, 4) + seq![0u8] + seq![3u8] + seq![3u8] + varnum_bytes(1)
        + str_bytes("qc:world"@) + registry + str_bytes("minecraft:the_end"@) + str_bytes(
        "qc:world"@,
    ) + be_bytes(0, 8) + varnum_bytes(0) + varnum_bytes(8) + varnum_bytes(8) + seq![
        0u8,
        0u8,
        0u8,
        0u8,
        0u8,
    ]
}

/// The brand message of the bootstrap.
pub open spec fn brand_frame() -> Seq<u8> {
    frame_bytes(0x15, str_bytes("minecraft:brand"@) + str_bytes("Quectocraft 0.1.0"@))
}

/// One empty chunk column: zeroed heightmap, all-air sections, no block
/// entities, no light.
pub open spec fn empty_chunk_payload() -> Seq<u8> {
    be_bytes(0, 4) + be_bytes(0, 4) + crate::clientbound::nbt_long_array_bytes(
        "MOTION_BLOCKING"@,
        Seq::new(37, |k: int| 0i64),
    ) + varnum_bytes(192) + Seq::new(192, |k: int| 0u8) + seq![
        0u8,
        1u8,
        0u8,
        0u8,
        0u8,
        0u8,
        0u8,
        0u8,
    ]
}

/// The default spawn point at the origin, angle zero.
pub open spec fn spawn_frame() -> Seq<u8> {
    frame_bytes(
        0x4c,
        be_bytes(
            crate::protocol::position_word(crate::protocol::Position { x: 0, y: 0, z: 0 }) as nat,
            8,
        ) + be_bytes(0, 4),
    )
}

/// The initial position sync: the origin at height 64, no rotation.
/// The height carries the IEEE-754 bit pattern of 64.0.
pub open spec fn sync_position_frame() -> Seq<u8> {
    frame_bytes(
        0x38,
        be_bytes(0, 8) + be_bytes(0x4050_0000_0000_0000, 8) + be_bytes(0, 8) + be_bytes(0, 4)
            + be_bytes(0, 4) + seq![0u8] + varnum_bytes(0) + seq![0u8],
    )
}

/// What a refused login-flow step does: one structured disconnect, then
/// the session is closed.
pub open spec fn login_refused(
    c: ClientSession,
    c2: ClientSession,
    acts: Seq<Action>,
    frame: Seq<u8>,
) -> bool {
    sends_then_closes(c, c2, acts, frame)
}

/// What `start_login` leaves behind.
pub open spec fn start_login_post(
    pre: NetworkServer,
    i: int,
    ls: crate::serverbound::LoginStart,
    c2: ClientSession,
    acts: Seq<Action>,
) -> bool {
    let c = pre.clients@[i];
    if has_uuid(pre.clients@, ls.uuid) {
        login_refused(c, c2, acts, login_disconnect_frame(duplicate_login_reason()))
    } else if encode_utf8(ls.name@).len() > 67 {
        login_refused(c, c2, acts, login_disconnect_frame(invalid_name_reason()))
    } else {
        &&& c2 == (ClientSession {
            verified: pre.config.login == LoginMode::Offline || c.verified,
            player: Some(Player { name: ls.name, uuid: ls.uuid }),
            ..c
        })
        &&& match pre.config.login {
            LoginMode::Offline => sends_one(
                c,
                acts,
                plugin_request_frame(-1i32, "qc:init"@, Seq::empty()),
            ),
            LoginMode::Velocity => sends_one(
                c,
                acts,
                plugin_request_frame(10i32, "velocity:player_info"@, seq![1u8]),
            ),
        }
    }
}

/// What `velocity_login` leaves behind: the forwarded payload splits
/// into a 32-byte signature and the signed data, and the session is
/// verified exactly when the keyed hash of the signed data under the
/// configured secret equals the signature.
pub open spec fn velocity_login_post(
    pre: NetworkServer,
    i: int,
    data: Option<Vec<u8>>,
    c2: ClientSession,
    acts: Seq<Action>,
) -> bool {
    let c = pre.clients@[i];
    match data {
        None => login_refused(c, c2, acts, login_disconnect_frame(proxy_required_reason())),
        Some(d) => if d@.len() < 32 || pre.config.velocity_secret is None {
            login_refused(c, c2, acts, disconnect_frame(secret_mismatch_reason()))
        } else {
            let sig = d@.subrange(0, 32);
            let body = d@.subrange(32, d@.len() as int);
            let key = encode_utf8(pre.config.velocity_secret->0@);
            if sig == hmac_sha256(key, body) {
                c2 == (ClientSession { verified: true, ..c }) && sends_one(
                    c,
                    acts,
                    plugin_request_frame(-1i32, "qc:init"@, Seq::empty()),
                )
            } else {
                login_refused(c, c2, acts, disconnect_frame(secret_mismatch_reason()))
            }
        },
    }
}

/// What the finalize step leaves behind: an unverified or identity-less
/// session is disconnected; otherwise the full bootstrap goes out, with
/// a join notification after the login grant.
pub open spec fn login_post(
    pre: NetworkServer,
    i: int,
    c2: ClientSession,
    acts: Seq<Action>,
) -> bool {
    let c = pre.clients@[i];
    if !c.verified || c.player is None {
        login_refused(c, c2, acts, disconnect_frame(unverified_reason()))
    } else {
        let p = c.player->0;
        &&& c2 == c
        &&& acts.len() == 8
        &&& acts[0] matches Action::Send { client, bytes } && client == c.id && bytes@
            == login_success_frame(p.name@, p.uuid)
        &&& acts[1] == (Action::PlayerJoin { player: p })
        &&& acts[2] matches Action::Send { client, bytes } && client == c.id && bytes@
            == frame_bytes(0x24, bootstrap_login_play_payload(c.id, pre.registry_codec@))
        &&& acts[3] matches Action::Send { client, bytes } && client == c.id && bytes@
            == brand_frame()
        &&& acts[4] matches Action::Send { client, bytes } && client == c.id && bytes@
            == pre.commands_frame@
        &&& acts[5] matches Action::Send { client, bytes } && client == c.id && bytes@
            == frame_bytes(0x20, empty_chunk_payload())
        &&& acts[6] matches Action::Send { client, bytes } && client == c.id && bytes@
            == spawn_frame()
        &&& acts[7] matches Action::Send { client, bytes } && client == c.id && bytes@
            == sync_position_frame()
    }
}

/// Everything an event handler leaves alone: the set's size, every other
/// session, and the server's static data.
pub open spec fn steps_client(pre: NetworkServer, post: NetworkServer, i: int) -> bool {
    &&& post.clients@.len() == pre.clients@.len()
    &&& forall|k: int|
        0 <= k < pre.clients@.len() && k != i ==> post.clients@[k] == pre.clients@[k]
    &&& post.config == pre.config
    &&& post.commands_frame == pre.commands_frame
    &&& post.registry_codec == pre.registry_codec
    &&& post.tick_counter == pre.tick_counter
    &&& post.keep_alive_interval == pre.keep_alive_interval
}

impl NetworkServer {
    /// Handles a claimed identity: rejects a duplicate of a connected
    /// identity (and an oversized name) with a structured disconnect,
    /// otherwise binds the player and opens the login-plugin round trip
    /// that the trust mode prescribes.
    pub fn start_login(&mut self, i: usize, login_start: crate::serverbound::LoginStart) -> (acts: Vec<
        Action,
    >)
        requires
            old(self).wf(),
            i < old(self).clients@.len(),
        ensures
            final(self).wf(),
            steps_client(*old(self), *final(self), i as int),
            start_login_post(
                *old(self),
                i as int,
                login_start,
                final(self).clients@[i as int],
                acts@,
            ),
    {
        let n = self.clients.len();
        let mut dup = false;
        let mut j: usize = 0;
        while j < n
            invariant
                n == self.clients@.len(),
                j <= n,
                dup == has_uuid(self.clients@.take(j as int), login_start.uuid),
            decreases n - j,
        {
            match &self.clients[j].player {
                Some(p) => {
                    if p.uuid == login_start.uuid {
                        dup = true;
                    }
                },
                None => {},
            }
            proof {
                let cs = self.clients@;
                assert(cs.take(j + 1).drop_last() =~= cs.take(j as int));
                assert(cs.take(j + 1).last() == cs[j as int]);
            }
            j = j + 1;
        }
        proof {
            assert(self.clients@.take(n as int) =~= self.clients@);
        }
        let id = self.clients[i].id;
        if dup {
            proof {
                reveal_strlit("{\"translate\":\"multiplayer.disconnect.duplicate_login\"}");
                lemma_utf8_len(duplicate_login_reason());
            }
            let bytes = encode_login_disconnect(duplicate_login_reason_str());
            let mut acts: Vec<Action> = Vec::new();
            acts.push(Action::Send { client: id, bytes });
            acts.push(Action::Close { client: id });
            self.clients[i].closed = true;
            return acts;
        }
        if login_start.name.as_str().as_bytes().len() > 67 {
            proof {
                reveal_strlit("{\"text\":\"invalid player name\"}");
                lemma_utf8_len(invalid_name_reason());
            }
            let bytes = encode_login_disconnect(invalid_name_reason_str());
            let mut acts: Vec<Action> = Vec::new();
            acts.push(Action::Send { client: id, bytes });
            acts.push(Action::Close { client: id });
            self.clients[i].closed = true;
            return acts;
        }
        self.clients[i].player = Some(
            Player { name: login_start.name, uuid: login_start.uuid },
        );
        proof {
            lemma_has_uuid_exists(old(self).clients@, login_start.uuid);
            assert forall|a: int, b: int|
                0 <= a < b < self.clients@.len() && (#[trigger] self.clients@[a]).player is Some
                    && (#[trigger] self.clients@[b]).player is Some implies self.clients@[a].player->0.uuid
                != self.clients@[b].player->0.uuid by {
                if a != i && b != i {
                    assert(self.clients@[a] == old(self).clients@[a]);
                    assert(self.clients@[b] == old(self).clients@[b]);
                }
            }
        }
        let mut acts: Vec<Action> = Vec::new();
        match self.config.login {
            LoginMode::Offline => {
                self.clients[i].verified = true;
                proof {
                    reveal_strlit("qc:init");
                    lemma_utf8_len("qc:init"@);
                }
                let bytes = encode_plugin_request(-1, "qc:init", Vec::new());
                acts.push(Action::Send { client: id, bytes });
            },
            LoginMode::Velocity => {
                proof {
                    reveal_strlit("velocity:player_info");
                    lemma_utf8_len("velocity:player_info"@);
                }
                let mut payload: Vec<u8> = Vec::new();
                payload.push(1);
                assert(payload@ =~= seq![1u8]);
                let bytes = encode_plugin_request(10, "velocity:player_info", payload);
                acts.push(Action::Send { client: id, bytes });
            },
        }
        acts
    }

    /// Checks a forwarded-login payload: the leading 32 bytes must be
    /// the keyed hash of the rest under the configured shared secret.
    pub fn velocity_login(&mut self, i: usize, data: Option<Vec<u8>>) -> (acts: Vec<Action>)
        requires
            old(self).wf(),
            i < old(self).clients@.len(),
        ensures
            final(self).wf(),
            steps_client(*old(self), *final(self), i as int),
            velocity_login_post(*old(self), i as int, data, final(self).clients@[i as int], acts@),
    {
        let id = self.clients[i].id;
        let d = match data {
            Some(d) => d,
            None => {
                proof {
                    reveal_strlit(
                        "{\"color\":\"red\",\"text\":\"This server can only be connected to via a Velocity proxy\"}",
                    );
                    lemma_utf8_len(proxy_required_reason());
                }
                let bytes = encode_login_disconnect(proxy_required_reason_str());
                let mut acts: Vec<Action> = Vec::new();
                acts.push(Action::Send { client: id, bytes });
                acts.push(Action::Close { client: id });
                self.clients[i].closed = true;
                return acts;
            },
        };
        let verified = if d.len() < 32 {
            false
        } else {
            match &self.config.velocity_secret {
                None => false,
                Some(secret) => {
                    let sig = vstd::slice::slice_subrange(d.as_slice(), 0, 32);
                    let body = vstd::slice::slice_subrange(d.as_slice(), 32, d.len());
                    hmac_sha256_verify(secret.as_str().as_bytes(), body, sig)
                },
            }
        };
        if !verified {
            proof {
                reveal_strlit(
                    "{\"text\":\"Could not verify secret. Ensure that the secrets configured for Velocity and Quectocraft match.\"}",
                );
                lemma_utf8_len(secret_mismatch_reason());
            }
            let bytes = encode_disconnect(secret_mismatch_reason_str());
            let mut acts: Vec<Action> = Vec::new();
            acts.push(Action::Send { client: id, bytes });
            acts.push(Action::Close { client: id });
            self.clients[i].closed = true;
            return acts;
        }
        self.clients[i].verified = true;
        proof {
            reveal_strlit("qc:init");
            lemma_utf8_len("qc:init"@);
        }
        let bytes = encode_plugin_request(-1, "qc:init", Vec::new());
        let mut acts: Vec<Action> = Vec::new();
        acts.push(Action::Send { client: id, bytes });
        acts
    }

    /// The terminal login step: a session that arrives unverified or
    /// without an identity is disconnected; otherwise the login grant
    /// and the full play bootstrap go out, with the join notification
    /// between them.
    #[verifier::rlimit(100)]
    pub fn login(&mut self, i: usize) -> (acts: Vec<Action>)
        requires
            old(self).wf(),
            i < old(self).clients@.len(),
        ensures
            final(self).wf(),
            steps_client(*old(self), *final(self), i as int),
            login_post(*old(self), i as int, final(self).clients@[i as int], acts@),
    {
        let id = self.clients[i].id;
        let verified = self.clients[i].verified;
        let player = match &self.clients[i].player {
            Some(p) => Some(p.duplicate()),
            None => None,
        };
        let p = match player {
            Some(p) if verified => p,
            _ => {
                proof {
                    reveal_strlit("{\"color\":\"red\",\"text\":\"Failed to verify your connection\"}");
                    lemma_utf8_len(unverified_reason());
                }
                let bytes = encode_disconnect(unverified_reason_str());
                let mut acts: Vec<Action> = Vec::new();
                acts.push(Action::Send { client: id, bytes });
                acts.push(Action::Close { client: id });
                self.clients[i].closed = true;
                return acts;
            },
        };
        let mut acts: Vec<Action> = Vec::new();
        // login grant
        let bytes0 = encode_login_success(&p.name, p.uuid);
        acts.push(Action::Send { client: id, bytes: bytes0 });
        acts.push(Action::PlayerJoin { player: p });
        // world metadata
        proof {
            reveal_strlit("qc:world");
            reveal_strlit("minecraft:the_end");
            lemma_utf8_len("qc:world"@);
            lemma_utf8_len("minecraft:the_end"@);
        }
        let mut dimensions: Vec<String> = Vec::new();
        dimensions.push("qc:world".to_owned());
        let lp = crate::clientbound::LoginPlay {
            eid: id,
            is_hardcore: false,
            gamemode: 3,
            prev_gamemode: 3,
            dimensions,
            registry_codec: self.registry_codec.clone(),
            dimension_type: "minecraft:the_end".to_owned(),
            dimension_name: "qc:world".to_owned(),
            seed_hash: 0,
            max_players: 0,
            view_distance: 8,
            sim_distance: 8,
            reduced_debug_info: false,
            respawn_screen: false,
            is_debug: false,
            is_flat: false,
            death_location: None,
        };
        proof {
            assert(lp.dimensions.deep_view() =~= seq!["qc:world"@]);
            assert(crate::clientbound::strings_bytes(seq!["qc:world"@]) =~= str_bytes(
                "qc:world"@,
            )) by {
                assert(seq!["qc:world"@].drop_last() =~= Seq::<Seq<char>>::empty());
                assert(crate::clientbound::strings_bytes(Seq::<Seq<char>>::empty()) =~= Seq::<
                    u8,
                >::empty());
                assert(seq!["qc:world"@].last() == "qc:world"@);
            }
            lemma_str_bytes_len("qc:world"@);
            lemma_str_bytes_len("minecraft:the_end"@);
            lemma_be_bytes_len((id as u32) as nat, 4);
            lemma_be_bytes_len(0, 8);
            crate::data::lemma_pow128_concrete();
            crate::data::lemma_varnum_bytes_len(1, 5);
            crate::data::lemma_varnum_bytes_len(0, 5);
            crate::data::lemma_varnum_bytes_len(8, 5);
            assert(lp.payload_spec() =~= bootstrap_login_play_payload(
                id,
                old(self).registry_codec@,
            ));
        }
        let bytes2 = encode_packet(lp);
        acts.push(Action::Send { client: id, bytes: bytes2 });
        // brand message
        proof {
            reveal_strlit("minecraft:brand");
            reveal_strlit("Quectocraft 0.1.0");
            lemma_utf8_len("minecraft:brand"@);
            lemma_utf8_len("Quectocraft 0.1.0"@);
            lemma_str_bytes_len("minecraft:brand"@);
            lemma_str_bytes_len("Quectocraft 0.1.0"@);
        }
        let mut brand_enc = crate::data::PacketEncoder::new();
        brand_enc.write_string(32767, "Quectocraft 0.1.0");
        let brand = crate::clientbound::PluginMessage {
            channel: "minecraft:brand".to_owned(),
            data: brand_enc.to_data(),
        };
        proof {
            assert(brand.payload_spec() =~= str_bytes("minecraft:brand"@) + str_bytes(
                "Quectocraft 0.1.0"@,
            ));
        }
        let bytes3 = encode_packet(brand);
        acts.push(Action::Send { client: id, bytes: bytes3 });
        // command graph
        acts.push(Action::Send { client: id, bytes: self.commands_frame.clone() });
        // one empty chunk column
        let heightmap: Vec<i64> = vec![0i64; 37];
        // one serialization up front pins the tag tree's byte length, so
        // the chunk payload provably leaves room for its frame header
        proof {
            crate::clientbound::lemma_motion_blocking_name_plain();
        }
        let probe = crate::clientbound::encode_nbt_long_array("MOTION_BLOCKING", &heightmap);
        proof {
            reveal_strlit("MOTION_BLOCKING");
            lemma_utf8_len("MOTION_BLOCKING"@);
            assert(heightmap@ =~= Seq::new(37, |k: int| 0i64));
        }
        let chunk_data = empty_chunk_sections();
        let chunk = crate::clientbound::ChunkData { x: 0, z: 0, heightmap, chunk_data };
        proof {
            crate::data::lemma_varnum_bytes_len(192, 5);
            lemma_be_bytes_len(0, 4);
            assert(chunk.payload_spec() =~= empty_chunk_payload());
        }
        let bytes5 = encode_packet(chunk);
        acts.push(Action::Send { client: id, bytes: bytes5 });
        let _ = probe;
        // default spawn point
        let spawn = crate::clientbound::SetDefaultSpawnPosition {
            pos: crate::protocol::Position { x: 0, y: 0, z: 0 },
            angle: 0,
        };
        proof {
            lemma_be_bytes_len(
                crate::protocol::position_word(
                    crate::protocol::Position { x: 0, y: 0, z: 0 },
                ) as nat,
                8,
            );
            lemma_be_bytes_len(0, 4);
        }
        let bytes6 = encode_packet(spawn);
        acts.push(Action::Send { client: id, bytes: bytes6 });
        // initial position sync
        let sync = crate::clientbound::SyncPlayerPosition {
            x: 0,
            y: 0x4050_0000_0000_0000,
            z: 0,
            yaw: 0,
            pitch: 0,
            flags: 0,
            teleport_id: 0,
            dismount: false,
        };
        proof {
            lemma_be_bytes_len(0x4050_0000_0000_0000, 8);
            lemma_be_bytes_len(0, 8);
            lemma_be_bytes_len(0, 4);
            assert(sync.payload_spec() =~= be_bytes(0, 8) + be_bytes(0x4050_0000_0000_0000, 8)
                + be_bytes(0, 8) + be_bytes(0, 4) + be_bytes(0, 4) + seq![0u8] + varnum_bytes(0)
                + seq![0u8]);
        }
        let bytes7 = encode_packet(sync);
        acts.push(Action::Send { client: id, bytes: bytes7 });
        acts
    }
}

/// The all-air section data of one empty chunk column: for each of the
/// 24 sections, a zero block count, a zeroed single-value block-state
/// palette, and a zeroed single-value biome palette.
fn empty_chunk_sections() -> (r: Vec<u8>)
    ensures
        r@ == Seq::new(192, |k: int| 0u8),
{
    let mut enc = crate::data::PacketEncoder::new();
    let mut i: usize = 0;
    while i < 24
        invariant
            i <= 24,
            enc@ =~= Seq::new((8 * i) as nat, |k: int| 0u8),
        decreases 24 - i,
    {
        // number of non-air blocks
        enc.write_short(0);
        // block states
        enc.write_ubyte(0);
        enc.write_varint(0);
        enc.write_varint(0);
        // biomes
        enc.write_ubyte(0);
        enc.write_varint(0);
        enc.write_varint(0);
        proof {
            assert(be_bytes(0, 2) =~= seq![0u8, 0u8]) by {
                reveal_with_fuel(crate::data::be_bytes, 3);
            }
            assert(varnum_bytes(0) =~= seq![0u8]);
            assert(enc@ =~= Seq::new((8 * (i + 1)) as nat, |k: int| 0u8));
        }
        i = i + 1;
    }
    let r = enc.to_data();
    assert(r@ =~= Seq::new(192, |k: int| 0u8));
    r
}


/// What `handle_plugin_response` leaves behind, for each intent kind.
pub open spec fn routing_post(pre: NetworkServer, response: Response, acts: Seq<Action>) -> bool {
    let cs = pre.clients@;
    match response {
        Response::Message { player, message } => {
            if encode_utf8(message@).len() > 1048579 {
                acts =~= Seq::<Action>::empty()
            } else {
                match first_target(cs, player@) {
                    Some(j) => acts.len() == 1 && (acts[0] matches Action::Send { client, bytes }
                        && client == cs[j].id && bytes@ == system_chat_frame(message@)),
                    None => acts =~= Seq::<Action>::empty(),
                }
            }
        },
        Response::Broadcast { message } => {
            if encode_utf8(message@).len() > 1048579 {
                acts =~= Seq::<Action>::empty()
            } else {
                sends_frame_to(acts, players_of(cs), system_chat_frame(message@))
            }
        },
        Response::Disconnect { player, reason } => {
            if encode_utf8(reason@).len() > 1048579 {
                acts =~= Seq::<Action>::empty()
            } else {
                sends_frame_to(acts, matching_ids(cs, player@), disconnect_frame(reason@))
            }
        },
    }
}


impl NetworkServer {
    /// Dispatches one classified packet from session `i` against the
    /// current session state: the single point where protocol legality
    /// turns into state changes and outbound intents.
    pub fn handle_packet(
        &mut self,
        i: usize,
        packet: crate::serverbound::ServerBoundPacket,
    ) -> (acts: Vec<Action>)
        requires
            old(self).wf(),
            i < old(self).clients@.len(),
        ensures
            final(self).wf(),
            steps_client(*old(self), *final(self), i as int),
            ({
                let c = old(self).clients@[i as int];
                let c2 = final(self).clients@[i as int];
                match packet {
                    crate::serverbound::ServerBoundPacket::Unknown(_) => c2 == c && acts@ =~= Seq::<
                        Action,
                    >::empty(),
                    crate::serverbound::ServerBoundPacket::Ignored(_) => c2 == c && acts@ =~= Seq::<
                        Action,
                    >::empty(),
                    crate::serverbound::ServerBoundPacket::Handshake(_) => c2 == c && acts@ =~= Seq::<
                        Action,
                    >::empty(),
                    crate::serverbound::ServerBoundPacket::StatusRequest() => c2 == c && sends_one(
                        c,
                        acts@,
                        status_response_frame(status_json()),
                    ),
                    crate::serverbound::ServerBoundPacket::PingRequest(n) => sends_then_closes(
                        c,
                        c2,
                        acts@,
                        ping_response_frame(n),
                    ),
                    crate::serverbound::ServerBoundPacket::LoginStart(ls) => start_login_post(
                        *old(self),
                        i as int,
                        ls,
                        c2,
                        acts@,
                    ),
                    crate::serverbound::ServerBoundPacket::LoginPluginResponse(lpr) => {
                        if lpr.id == 10 {
                            velocity_login_post(*old(self), i as int, lpr.data, c2, acts@)
                        } else if lpr.id == -1 {
                            login_post(*old(self), i as int, c2, acts@)
                        } else {
                            sends_then_closes(
                                c,
                                c2,
                                acts@,
                                login_disconnect_frame(bad_plugin_response_reason()),
                            )
                        }
                    },
                    crate::serverbound::ServerBoundPacket::ChatMessage(m) => c2 == c && (
                    match c.player {
                        Some(p) => acts@ =~= seq![
                            Action::ChatEvent { player: p, message: m.message },
                        ],
                        None => acts@ =~= Seq::<Action>::empty(),
                    }),
                    crate::serverbound::ServerBoundPacket::ChatCommand(m) => c2 == c && (
                    if command_word(m.message@) == "qc"@ {
                        sends_one(c, acts@, system_chat_frame(version_chat_json()))
                    } else {
                        match c.player {
                            Some(p) => acts@.len() == 1 && (acts@[0] matches Action::CommandEvent {
                                player,
                                command,
                                args,
                            } && player == p && command@ == command_word(m.message@) && args@
                                == command_args(m.message@)),
                            None => acts@ =~= Seq::<Action>::empty(),
                        }
                    }),
                    crate::serverbound::ServerBoundPacket::PluginMessage(m) => c2 == c && (
                    match c.player {
                        Some(p) => acts@ =~= seq![
                            Action::PluginMessageEvent {
                                player: p,
                                channel: m.channel,
                                data: m.data,
                            },
                        ],
                        None => acts@ =~= Seq::<Action>::empty(),
                    }),
                }
            }),
    {
        match packet {
            crate::serverbound::ServerBoundPacket::Unknown(_) => Vec::new(),
            crate::serverbound::ServerBoundPacket::Ignored(_) => Vec::new(),
            crate::serverbound::ServerBoundPacket::Handshake(_) => Vec::new(),
            crate::serverbound::ServerBoundPacket::StatusRequest() => {
                proof {
                    reveal_strlit("{\"version\":{\"name\":\"1.19.3\",\"protocol\":761}}");
                    lemma_utf8_len(status_json());
                }
                let bytes = encode_status_response(status_json_str());
                let mut acts: Vec<Action> = Vec::new();
                acts.push(Action::Send { client: self.clients[i].id, bytes });
                acts
            },
            crate::serverbound::ServerBoundPacket::PingRequest(n) => {
                let id = self.clients[i].id;
                let bytes = encode_ping_response(n);
                let mut acts: Vec<Action> = Vec::new();
                acts.push(Action::Send { client: id, bytes });
                acts.push(Action::Close { client: id });
                self.clients[i].closed = true;
                acts
            },
            crate::serverbound::ServerBoundPacket::LoginStart(ls) => self.start_login(i, ls),
            crate::serverbound::ServerBoundPacket::LoginPluginResponse(lpr) => {
                if lpr.id == 10 {
                    self.velocity_login(i, lpr.data)
                } else if lpr.id == -1 {
                    self.login(i)
                } else {
                    proof {
                        reveal_strlit("{\"text\":\"bad plugin response\"}");
                        lemma_utf8_len(bad_plugin_response_reason());
                    }
                    let id = self.clients[i].id;
                    let bytes = encode_login_disconnect(bad_plugin_response_reason_str());
                    let mut acts: Vec<Action> = Vec::new();
                    acts.push(Action::Send { client: id, bytes });
                    acts.push(Action::Close { client: id });
                    self.clients[i].closed = true;
                    acts
                }
            },
            crate::serverbound::ServerBoundPacket::ChatMessage(m) => {
                match &self.clients[i].player {
                    Some(p) => {
                        let mut acts: Vec<Action> = Vec::new();
                        acts.push(
                            Action::ChatEvent { player: p.duplicate(), message: m.message },
                        );
                        acts
                    },
                    None => Vec::new(),
                }
            },
            crate::serverbound::ServerBoundPacket::ChatCommand(m) => {
                let (command, args) = split_command(m.message.as_str());
                if is_qc_command(command.as_str()) {
                    proof {
                        reveal_strlit(
                            "{\"color\":\"green\",\"text\":\"QuectoCraft version 0.1.0\"}",
                        );
                        lemma_utf8_len(version_chat_json());
                    }
                    let bytes = encode_system_chat(version_chat_json_str());
                    let mut acts: Vec<Action> = Vec::new();
                    acts.push(Action::Send { client: self.clients[i].id, bytes });
                    acts
                } else {
                    match &self.clients[i].player {
                        Some(p) => {
                            let mut acts: Vec<Action> = Vec::new();
                            acts.push(
                                Action::CommandEvent { player: p.duplicate(), command, args },
                            );
                            acts
                        },
                        None => Vec::new(),
                    }
                }
            },
            crate::serverbound::ServerBoundPacket::PluginMessage(m) => {
                match &self.clients[i].player {
                    Some(p) => {
                        let mut acts: Vec<Action> = Vec::new();
                        acts.push(
                            Action::PluginMessageEvent {
                                player: p.duplicate(),
                                channel: m.channel,
                                data: m.data,
                            },
                        );
                        acts
                    },
                    None => Vec::new(),
                }
            },
        }
    }

    /// Routes one plugin-bridge intent: a message goes to the first
    /// session whose player answers to the target, a broadcast goes to
    /// every player-bound session, a disconnect notice goes to every
    /// session whose player answers to the target. An intent whose JSON
    /// document exceeds the wire limit is dropped whole.
    pub fn handle_plugin_response(&mut self, response: Response) -> (acts: Vec<Action>)
        requires
            old(self).wf(),
        ensures
            *final(self) == *old(self),
            final(self).wf(),
            routing_post(*old(self), response, acts@),
    {
        match response {
            Response::Message { player, message } => {
                if message.as_str().as_bytes().len() > 1048579 {
                    return Vec::new();
                }
                let n = self.clients.len();
                let mut found: Option<usize> = None;
                let mut k: usize = 0;
                while k < n
                    invariant
                        *self == *old(self),
                        n == self.clients@.len(),
                        k <= n,
                        match found {
                            None => forall|j: int|
                                0 <= j < k ==> !target_matches(
                                    #[trigger] self.clients@[j],
                                    player@,
                                ),
                            Some(f) => f < k && target_matches(self.clients@[f as int], player@)
                                && (forall|j: int|
                                0 <= j < f ==> !target_matches(
                                    #[trigger] self.clients@[j],
                                    player@,
                                )),
                        },
                    decreases n - k,
                {
                    let matched = match &self.clients[k].player {
                        Some(p) => {
                            if p.name == player {
                                true
                            } else {
                                let text = uuid_to_string(p.uuid);
                                text == player
                            }
                        },
                        None => false,
                    };
                    if matched && found.is_none() {
                        found = Some(k);
                    }
                    k = k + 1;
                }
                match found {
                    Some(f) => {
                        proof {
                            lemma_first_target_found(self.clients@, player@, f as int);
                        }
                        let bytes = encode_system_chat(message.as_str());
                        let mut acts: Vec<Action> = Vec::new();
                        acts.push(Action::Send { client: self.clients[f].id, bytes });
                        acts
                    },
                    None => {
                        proof {
                            lemma_first_target_none(self.clients@, player@);
                        }
                        Vec::new()
                    },
                }
            },
            Response::Broadcast { message } => {
                if message.as_str().as_bytes().len() > 1048579 {
                    return Vec::new();
                }
                let mut acts: Vec<Action> = Vec::new();
                let n = self.clients.len();
                let mut k: usize = 0;
                while k < n
                    invariant
                        *self == *old(self),
                        n == self.clients@.len(),
                        k <= n,
                        encode_utf8(message@).len() <= 1048579,
                        sends_frame_to(
                            acts@,
                            players_of(self.clients@.take(k as int)),
                            system_chat_frame(message@),
                        ),
                    decreases n - k,
                {
                    if self.clients[k].player.is_some() {
                        let bytes = encode_system_chat(message.as_str());
                        acts.push(Action::Send { client: self.clients[k].id, bytes });
                    }
                    proof {
                        let cs = self.clients@;
                        assert(cs.take(k + 1).drop_last() =~= cs.take(k as int));
                        assert(cs.take(k + 1).last() == cs[k as int]);
                    }
                    k = k + 1;
                }
                proof {
                    assert(self.clients@.take(n as int) =~= self.clients@);
                }
                acts
            },
            Response::Disconnect { player, reason } => {
                if reason.as_str().as_bytes().len() > 1048579 {
                    return Vec::new();
                }
                let mut acts: Vec<Action> = Vec::new();
                let n = self.clients.len();
                let mut k: usize = 0;
                while k < n
                    invariant
                        *self == *old(self),
                        n == self.clients@.len(),
                        k <= n,
                        encode_utf8(reason@).len() <= 1048579,
                        sends_frame_to(
                            acts@,
                            matching_ids(self.clients@.take(k as int), player@),
                            disconnect_frame(reason@),
                        ),
                    decreases n - k,
                {
                    let matched = match &self.clients[k].player {
                        Some(p) => {
                            if p.name == player {
                                true
                            } else {
                                let text = uuid_to_string(p.uuid);
                                text == player
                            }
                        },
                        None => false,
                    };
                    if matched {
                        let bytes = encode_disconnect(reason.as_str());
                        acts.push(Action::Send { client: self.clients[k].id, bytes });
                    }
                    proof {
                        let cs = self.clients@;
                        assert(cs.take(k + 1).drop_last() =~= cs.take(k as int));
                        assert(cs.take(k + 1).last() == cs[k as int]);
                    }
                    k = k + 1;
                }
                proof {
                    assert(self.clients@.take(n as int) =~= self.clients@);
                }
                acts
            },
        }
    }
}

// ---------------------------------------------------------------------------
// Laws
// ---------------------------------------------------------------------------

/// Law: a well-formed server never holds two players with the same
/// identifier; rejection of a duplicate login keeps it that way.
pub proof fn lemma_no_duplicate_identities(s: &NetworkServer, i: int, j: int)
    requires
        s.wf(),
        0 <= i < j < s.clients@.len(),
        s.clients@[i].player is Some,
        s.clients@[j].player is Some,
    ensures
        s.clients@[i].player->0.uuid != s.clients@[j].player->0.uuid,
{
}

/// Law: a forwarded-login payload whose leading 32 bytes equal the keyed
/// hash of the rest is accepted, and corrupting any byte of that
/// signature makes the same payload rejected.
pub proof fn lemma_signature_flip_rejected(key: Seq<u8>, body: Seq<u8>, sig: Seq<u8>, k: int)
    requires
        sig == hmac_sha256(key, body),
        0 <= k < sig.len(),
    ensures
        forall|b: u8| b != sig[k] ==> sig.update(k, b) != hmac_sha256(key, body),
{
    assert forall|b: u8| b != sig[k] implies sig.update(k, b) != hmac_sha256(key, body) by {
        assert(sig.update(k, b)[k] == b);
    }
}


} // verus!
