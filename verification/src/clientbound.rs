use vstd::prelude::*;
use vstd::utf8::encode_utf8;
use crate::data::{
    PacketEncoder, finalize_packet, frame_bytes, varnum_bytes, be_bytes, bool_byte, str_bytes,
    be_at, string_at, varint_at, DecodeError, lemma_be_at_from, lemma_string_at_from,
    lemma_varint_at_from, lemma_be_bytes_len, lemma_pow256_concrete, lemma_str_bytes_len,
};
use crate::protocol::{Position, position_word};

verus! {

/// Byte-length bound a string field must respect: four bytes per declared
/// character, plus the three spare bytes the wire format tolerates.
pub open spec fn str_fits(s: Seq<char>, max_len: int) -> bool {
    encode_utf8(s).len() <= 4 * max_len + 3
}

/// An outbound packet: it knows its revision-specific ID and appends its
/// payload to an encoder, byte for byte as `payload_spec` states.
pub trait ClientBoundPacket: Sized {
    /// The exact payload this packet encodes to.
    spec fn payload_spec(&self) -> Seq<u8>;

    /// The packet's wire ID.
    spec fn id_spec(&self) -> i32;

    /// The field bounds under which the packet is encodable.
    spec fn valid(&self) -> bool;

    fn encode(&self, encoder: &mut PacketEncoder)
        requires
            self.valid(),
        ensures
            final(encoder)@ == old(encoder)@ + self.payload_spec(),
    ;

    fn packet_id(&self) -> (r: i32)
        ensures
            r == self.id_spec(),
    ;
}

/// Encodes a packet and wraps it into a frame: total length, ID, payload.
pub fn encode_packet<P: ClientBoundPacket>(packet: P) -> (r: Vec<u8>)
    requires
        packet.valid(),
        packet.payload_spec().len() + 5 < 0x8000_0000,
    ensures
        r@ == frame_bytes(packet.id_spec(), packet.payload_spec()),
{
    let mut encoder = PacketEncoder::new();
    packet.encode(&mut encoder);
    let id = packet.packet_id();
    let data = encoder.to_data();
    assert(data@ =~= packet.payload_spec());
    finalize_packet(data, id)
}

// ---------------------------------------------------------------------------
// Status
// ---------------------------------------------------------------------------

/// Echo of a ping: the client's own nonce sent back.
#[derive(Debug, PartialEq)]
pub struct PingResponse {
    pub data: i64,
}

impl ClientBoundPacket for PingResponse {
    open spec fn payload_spec(&self) -> Seq<u8> {
        be_bytes((self.data as u64) as nat, 8)
    }

    open spec fn id_spec(&self) -> i32 {
        0x01
    }

    open spec fn valid(&self) -> bool {
        true
    }

    fn encode(&self, encoder: &mut PacketEncoder) {
        encoder.write_long(self.data);
    }

    fn packet_id(&self) -> i32 {
        0x01
    }
}

/// The server-list description: one JSON document.
#[derive(Debug, PartialEq)]
pub struct StatusResponse {
    pub data: String,
}

impl ClientBoundPacket for StatusResponse {
    open spec fn payload_spec(&self) -> Seq<u8> {
        str_bytes(self.data@)
    }

    open spec fn id_spec(&self) -> i32 {
        0x00
    }

    open spec fn valid(&self) -> bool {
        str_fits(self.data@, 32767)
    }

    fn encode(&self, encoder: &mut PacketEncoder) {
        encoder.write_string(32767, self.data.as_str());
    }

    fn packet_id(&self) -> i32 {
        0x00
    }
}

// ---------------------------------------------------------------------------
// Login
// ---------------------------------------------------------------------------

/// Admits the client: its identifier, its name, and an empty property
/// list.
#[derive(Debug, PartialEq)]
pub struct LoginSuccess {
    pub uuid: u128,
    pub name: String,
}

impl ClientBoundPacket for LoginSuccess {
    open spec fn payload_spec(&self) -> Seq<u8> {
        be_bytes(self.uuid as nat, 16) + str_bytes(self.name@) + varnum_bytes(0)
    }

    open spec fn id_spec(&self) -> i32 {
        0x02
    }

    open spec fn valid(&self) -> bool {
        str_fits(self.name@, 16)
    }

    fn encode(&self, encoder: &mut PacketEncoder) {
        encoder.write_uuid(self.uuid);
        encoder.write_string(16, self.name.as_str());
        encoder.write_varint(0);
        assert(final(encoder)@ =~= old(encoder)@ + self.payload_spec());
    }

    fn packet_id(&self) -> i32 {
        0x02
    }
}

/// Asks the client for a login-plugin round trip on a named channel.
#[derive(Debug, PartialEq)]
pub struct LoginPluginRequest {
    pub id: i32,
    pub channel: String,
    pub data: Vec<u8>,
}

impl ClientBoundPacket for LoginPluginRequest {
    open spec fn payload_spec(&self) -> Seq<u8> {
        varnum_bytes((self.id as u32) as nat) + str_bytes(self.channel@) + self.data@
    }

    open spec fn id_spec(&self) -> i32 {
        0x04
    }

    open spec fn valid(&self) -> bool {
        str_fits(self.channel@, 32767)
    }

    fn encode(&self, encoder: &mut PacketEncoder) {
        encoder.write_varint(self.id);
        encoder.write_string(32767, self.channel.as_str());
        encoder.write_bytes(self.data.as_slice());
        assert(final(encoder)@ =~= old(encoder)@ + self.payload_spec());
    }

    fn packet_id(&self) -> i32 {
        0x04
    }
}

/// Refuses a login, with a structured JSON reason.
#[derive(Debug, PartialEq)]
pub struct LoginDisconnect {
    pub reason: String,
}

impl ClientBoundPacket for LoginDisconnect {
    open spec fn payload_spec(&self) -> Seq<u8> {
        str_bytes(self.reason@)
    }

    open spec fn id_spec(&self) -> i32 {
        0x00
    }

    open spec fn valid(&self) -> bool {
        str_fits(self.reason@, 262144)
    }

    fn encode(&self, encoder: &mut PacketEncoder) {
        encoder.write_string(262144, self.reason.as_str());
    }

    fn packet_id(&self) -> i32 {
        0x00
    }
}

// ---------------------------------------------------------------------------
// Play
// ---------------------------------------------------------------------------

/// The `str_bytes` of each string in order: how a string list encodes.
pub open spec fn strings_bytes(v: Seq<Seq<char>>) -> Seq<u8>
    decreases v.len(),
{
    if v.len() == 0 {
        seq![]
    } else {
        strings_bytes(v.drop_last()) + str_bytes(v.last())
    }
}

/// The play-state bootstrap: world and dimension metadata.
#[derive(Debug, PartialEq)]
pub struct LoginPlay {
    pub eid: i32,
    pub is_hardcore: bool,
    pub gamemode: u8,
    pub prev_gamemode: u8,
    pub dimensions: Vec<String>,
    pub registry_codec: Vec<u8>,
    pub dimension_type: String,
    pub dimension_name: String,
    pub seed_hash: i64,
    pub max_players: i32,
    pub view_distance: i32,
    pub sim_distance: i32,
    pub reduced_debug_info: bool,
    pub respawn_screen: bool,
    pub is_debug: bool,
    pub is_flat: bool,
    pub death_location: Option<(String, Position)>,
}

/// The fields of the bootstrap before the dimension-name list.
pub open spec fn login_play_head(p: &LoginPlay) -> Seq<u8> {
    be_bytes((p.eid as u32) as nat, 4) + seq![bool_byte(p.is_hardcore)] + seq![p.gamemode] + seq![
        p.prev_gamemode,
    ] + varnum_bytes(p.dimensions@.len())
}

/// The world-description fields that follow the dimension-name list.
pub open spec fn login_play_world(p: &LoginPlay) -> Seq<u8> {
    p.registry_codec@ + str_bytes(p.dimension_type@) + str_bytes(p.dimension_name@) + be_bytes(
        (p.seed_hash as u64) as nat,
        8,
    ) + varnum_bytes((p.max_players as u32) as nat) + varnum_bytes((p.view_distance as u32) as nat)
        + varnum_bytes((p.sim_distance as u32) as nat)
}

/// The flag fields that close the bootstrap.
pub open spec fn login_play_flags(p: &LoginPlay) -> Seq<u8> {
    seq![bool_byte(p.reduced_debug_info)] + seq![bool_byte(p.respawn_screen)] + seq![
        bool_byte(p.is_debug),
    ] + seq![bool_byte(p.is_flat)] + seq![bool_byte(p.death_location is Some)] + (
    match p.death_location {
        Some(dl) => str_bytes(dl.0@) + be_bytes(position_word(dl.1) as nat, 8),
        None => seq![],
    })
}

/// The fields of the bootstrap after the dimension-name list.
pub open spec fn login_play_tail(p: &LoginPlay) -> Seq<u8> {
    login_play_world(p) + login_play_flags(p)
}

/// Writes the bootstrap fields before the dimension-name list.
fn write_login_play_head(p: &LoginPlay, encoder: &mut PacketEncoder)
    requires
        p.dimensions@.len() < 0x8000_0000,
    ensures
        final(encoder)@ == old(encoder)@ + login_play_head(p),
{
    encoder.write_int(p.eid);
    encoder.write_bool(p.is_hardcore);
    encoder.write_ubyte(p.gamemode);
    encoder.write_ubyte(p.prev_gamemode);
    encoder.write_varint(p.dimensions.len() as i32);
    proof {
        assert((p.dimensions.len() as i32) as u32 as nat == p.dimensions@.len());
        assert(final(encoder)@ =~= old(encoder)@ + login_play_head(p));
    }
}

/// Writes the bootstrap fields after the dimension-name list.
#[verifier::rlimit(100)]
fn write_login_play_tail(p: &LoginPlay, encoder: &mut PacketEncoder)
    requires
        str_fits(p.dimension_type@, 32767),
        str_fits(p.dimension_name@, 32767),
        match p.death_location {
            Some(dl) => str_fits(dl.0@, 32767),
            None => true,
        },
    ensures
        final(encoder)@ == old(encoder)@ + login_play_tail(p),
{
    encoder.write_bytes(p.registry_codec.as_slice());
    encoder.write_string(32767, p.dimension_type.as_str());
    encoder.write_string(32767, p.dimension_name.as_str());
    encoder.write_long(p.seed_hash);
    encoder.write_varint(p.max_players);
    encoder.write_varint(p.view_distance);
    encoder.write_varint(p.sim_distance);
    proof {
        assert(encoder@ =~= old(encoder)@ + login_play_world(p));
    }
    let ghost mid = encoder@;
    encoder.write_bool(p.reduced_debug_info);
    encoder.write_bool(p.respawn_screen);
    encoder.write_bool(p.is_debug);
    encoder.write_bool(p.is_flat);
    encoder.write_bool(p.death_location.is_some());
    match &p.death_location {
        Some(dl) => {
            encoder.write_string(32767, dl.0.as_str());
            encoder.write_position(dl.1);
        },
        None => {},
    }
    proof {
        assert(encoder@ =~= mid + login_play_flags(p));
        assert(final(encoder)@ =~= old(encoder)@ + login_play_tail(p));
    }
}

impl ClientBoundPacket for LoginPlay {
    open spec fn payload_spec(&self) -> Seq<u8> {
        login_play_head(self) + strings_bytes(self.dimensions.deep_view()) + login_play_tail(self)
    }

    open spec fn id_spec(&self) -> i32 {
        0x24
    }

    open spec fn valid(&self) -> bool {
        &&& self.dimensions@.len() < 0x8000_0000
        &&& forall|i: int|
            0 <= i < self.dimensions@.len() ==> str_fits(
                #[trigger] self.dimensions.deep_view()[i],
                32767,
            )
        &&& str_fits(self.dimension_type@, 32767)
        &&& str_fits(self.dimension_name@, 32767)
        &&& match self.death_location {
            Some(dl) => str_fits(dl.0@, 32767),
            None => true,
        }
    }

    fn encode(&self, encoder: &mut PacketEncoder) {
        write_login_play_head(self, encoder);
        let ghost mid = encoder@;
        let n = self.dimensions.len();
        let mut i: usize = 0;
        while i < n
            invariant
                n == self.dimensions@.len(),
                i <= n,
                self.valid(),
                encoder@ == mid + strings_bytes(self.dimensions.deep_view().take(i as int)),
            decreases n - i,
        {
            proof {
                let dv = self.dimensions.deep_view();
                assert(str_fits(dv[i as int], 32767));
                assert(dv[i as int] == self.dimensions@[i as int]@);
            }
            encoder.write_string(32767, self.dimensions[i].as_str());
            proof {
                let dv = self.dimensions.deep_view();
                assert(dv.take(i + 1).drop_last() =~= dv.take(i as int));
                assert(dv.take(i + 1).last() == dv[i as int]);
                assert(encoder@ =~= mid + strings_bytes(dv.take(i + 1)));
            }
            i = i + 1;
        }
        proof {
            assert(self.dimensions.deep_view().take(n as int) =~= self.dimensions.deep_view());
        }
        write_login_play_tail(self, encoder);
        assert(final(encoder)@ =~= old(encoder)@ + self.payload_spec());
    }

    fn packet_id(&self) -> i32 {
        0x24
    }
}

/// A named-channel payload pushed to the client.
#[derive(Debug, PartialEq)]
pub struct PluginMessage {
    pub channel: String,
    pub data: Vec<u8>,
}

impl ClientBoundPacket for PluginMessage {
    open spec fn payload_spec(&self) -> Seq<u8> {
        str_bytes(self.channel@) + self.data@
    }

    open spec fn id_spec(&self) -> i32 {
        0x15
    }

    open spec fn valid(&self) -> bool {
        str_fits(self.channel@, 32767)
    }

    fn encode(&self, encoder: &mut PacketEncoder) {
        encoder.write_string(32767, self.channel.as_str());
        encoder.write_bytes(self.data.as_slice());
        assert(final(encoder)@ =~= old(encoder)@ + self.payload_spec());
    }

    fn packet_id(&self) -> i32 {
        0x15
    }
}

/// Teleports the client. The coordinates and angles carry IEEE-754 bit
/// patterns: 64-bit doubles for X/Y/Z, 32-bit singles for yaw and pitch.
#[derive(Debug, PartialEq)]
pub struct SyncPlayerPosition {
    pub x: u64,
    pub y: u64,
    pub z: u64,
    pub yaw: u32,
    pub pitch: u32,
    pub flags: i8,
    pub teleport_id: i32,
    pub dismount: bool,
}

impl ClientBoundPacket for SyncPlayerPosition {
    open spec fn payload_spec(&self) -> Seq<u8> {
        be_bytes(self.x as nat, 8) + be_bytes(self.y as nat, 8) + be_bytes(self.z as nat, 8)
            + be_bytes(self.yaw as nat, 4) + be_bytes(self.pitch as nat, 4) + seq![
            self.flags as u8,
        ] + varnum_bytes((self.teleport_id as u32) as nat) + seq![bool_byte(self.dismount)]
    }

    open spec fn id_spec(&self) -> i32 {
        0x38
    }

    open spec fn valid(&self) -> bool {
        true
    }

    fn encode(&self, encoder: &mut PacketEncoder) {
        encoder.write_long(self.x as i64);
        encoder.write_long(self.y as i64);
        encoder.write_long(self.z as i64);
        encoder.write_int(self.yaw as i32);
        encoder.write_int(self.pitch as i32);
        encoder.write_byte(self.flags);
        encoder.write_varint(self.teleport_id);
        encoder.write_bool(self.dismount);
        proof {
            let x = self.x;
            let y = self.y;
            let z = self.z;
            assert((x as i64) as u64 == x && (y as i64) as u64 == y && (z as i64) as u64 == z)
                by (bit_vector);
            let yaw = self.yaw;
            let pitch = self.pitch;
            assert((yaw as i32) as u32 == yaw && (pitch as i32) as u32 == pitch) by (bit_vector);
        }
        assert(final(encoder)@ =~= old(encoder)@ + self.payload_spec());
    }

    fn packet_id(&self) -> i32 {
        0x38
    }
}

/// Times the session: the client must echo the nonce back.
#[derive(Debug, PartialEq)]
pub struct KeepAlive {
    pub data: i64,
}

impl ClientBoundPacket for KeepAlive {
    open spec fn payload_spec(&self) -> Seq<u8> {
        be_bytes((self.data as u64) as nat, 8)
    }

    open spec fn id_spec(&self) -> i32 {
        0x1f
    }

    open spec fn valid(&self) -> bool {
        true
    }

    fn encode(&self, encoder: &mut PacketEncoder) {
        encoder.write_long(self.data);
    }

    fn packet_id(&self) -> i32 {
        0x1f
    }
}

/// The client's movement capabilities. The two speeds carry IEEE-754
/// 32-bit bit patterns.
#[derive(Debug, PartialEq)]
pub struct PlayerAbilities {
    pub flags: i8,
    pub fly_speed: u32,
    pub fov_modifier: u32,
}

impl ClientBoundPacket for PlayerAbilities {
    open spec fn payload_spec(&self) -> Seq<u8> {
        seq![self.flags as u8] + be_bytes(self.fly_speed as nat, 4) + be_bytes(
            self.fov_modifier as nat,
            4,
        )
    }

    open spec fn id_spec(&self) -> i32 {
        0x30
    }

    open spec fn valid(&self) -> bool {
        true
    }

    fn encode(&self, encoder: &mut PacketEncoder) {
        encoder.write_byte(self.flags);
        encoder.write_int(self.fly_speed as i32);
        encoder.write_int(self.fov_modifier as i32);
        proof {
            let a = self.fly_speed;
            let b = self.fov_modifier;
            assert((a as i32) as u32 == a && (b as i32) as u32 == b) by (bit_vector);
        }
        assert(final(encoder)@ =~= old(encoder)@ + self.payload_spec());
    }

    fn packet_id(&self) -> i32 {
        0x30
    }
}

/// Ends a play-state session, with a structured JSON reason.
#[derive(Debug, PartialEq)]
pub struct Disconnect {
    pub reason: String,
}

impl ClientBoundPacket for Disconnect {
    open spec fn payload_spec(&self) -> Seq<u8> {
        str_bytes(self.reason@)
    }

    open spec fn id_spec(&self) -> i32 {
        0x17
    }

    open spec fn valid(&self) -> bool {
        str_fits(self.reason@, 262144)
    }

    fn encode(&self, encoder: &mut PacketEncoder) {
        encoder.write_string(262144, self.reason.as_str());
    }

    fn packet_id(&self) -> i32 {
        0x17
    }
}

/// Sets the world's default spawn point. The angle carries an IEEE-754
/// 32-bit bit pattern.
#[derive(Debug, PartialEq)]
pub struct SetDefaultSpawnPosition {
    pub pos: Position,
    pub angle: u32,
}

impl ClientBoundPacket for SetDefaultSpawnPosition {
    open spec fn payload_spec(&self) -> Seq<u8> {
        be_bytes(position_word(self.pos) as nat, 8) + be_bytes(self.angle as nat, 4)
    }

    open spec fn id_spec(&self) -> i32 {
        0x4c
    }

    open spec fn valid(&self) -> bool {
        true
    }

    fn encode(&self, encoder: &mut PacketEncoder) {
        encoder.write_position(self.pos);
        encoder.write_int(self.angle as i32);
        proof {
            let a = self.angle;
            assert((a as i32) as u32 == a) by (bit_vector);
        }
        assert(final(encoder)@ =~= old(encoder)@ + self.payload_spec());
    }

    fn packet_id(&self) -> i32 {
        0x4c
    }
}

/// A system chat line: a JSON document and the overlay flag.
#[derive(Debug, PartialEq)]
pub struct SystemChatMessage {
    pub message: String,
    pub overlay: bool,
}

impl ClientBoundPacket for SystemChatMessage {
    open spec fn payload_spec(&self) -> Seq<u8> {
        str_bytes(self.message@) + seq![bool_byte(self.overlay)]
    }

    open spec fn id_spec(&self) -> i32 {
        0x60
    }

    open spec fn valid(&self) -> bool {
        str_fits(self.message@, 262144)
    }

    fn encode(&self, encoder: &mut PacketEncoder) {
        encoder.write_string(262144, self.message.as_str());
        encoder.write_bool(self.overlay);
        assert(final(encoder)@ =~= old(encoder)@ + self.payload_spec());
    }

    fn packet_id(&self) -> i32 {
        0x60
    }
}

// ---------------------------------------------------------------------------
// Chunk data
// ---------------------------------------------------------------------------

/// The serialized tag tree holding one named long array under a root
/// compound: exactly what the chunk heightmap payload carries.
pub uninterp spec fn nbt_long_array_bytes(name: Seq<char>, data: Seq<i64>) -> Seq<u8>;

/// The characters on which the tag serializer's name encoding (Java's
/// modified form) agrees byte for byte with UTF-8: the basic plane
/// without the NUL character. Outside it, NUL takes two bytes and a
/// supplementary character six.
pub open spec fn nbt_name_plain(s: Seq<char>) -> bool {
    forall|i: int| 0 <= i < s.len() ==> 1 <= (#[trigger] s[i]) as u32 <= 0xFFFF
}

/// Relies on `nbt::Blob::to_writer`: serializing a fresh blob holding one
/// long array under `name` is deterministic in the name and the values,
/// and spends one byte on each tag, two on each string length, four on
/// the element count, and eight on each element. The byte count of the
/// name itself is stated only for names whose modified-form encoding
/// coincides with UTF-8, which the `requires` demands.
#[verifier::external_body]
pub(crate) fn encode_nbt_long_array(name: &str, data: &Vec<i64>) -> (r: Vec<u8>)
    requires
        nbt_name_plain(name@),
    ensures
        r@ == nbt_long_array_bytes(name@, data@),
        r@.len() == 11 + encode_utf8(name@).len() + 8 * data@.len(),
{
    let mut blob = nbt::Blob::new();
    let _ = blob.insert(name, data.clone());
    let mut out = Vec::new();
    let _ = blob.to_writer(&mut out);
    out
}

/// The one tag name this protocol writes keeps to the plain range.
pub(crate) proof fn lemma_motion_blocking_name_plain()
    ensures
        nbt_name_plain("MOTION_BLOCKING"@),
{
    reveal_strlit("MOTION_BLOCKING");
    let s = "MOTION_BLOCKING"@;
    assert forall|i: int| 0 <= i < s.len() implies 1 <= (#[trigger] s[i]) as u32 <= 0xFFFF by {
        if i == 0 {
            assert(s[0] == 'M');
        } else if i == 1 {
            assert(s[1] == 'O');
        } else if i == 2 {
            assert(s[2] == 'T');
        } else if i == 3 {
            assert(s[3] == 'I');
        } else if i == 4 {
            assert(s[4] == 'O');
        } else if i == 5 {
            assert(s[5] == 'N');
        } else if i == 6 {
            assert(s[6] == '_');
        } else if i == 7 {
            assert(s[7] == 'B');
        } else if i == 8 {
            assert(s[8] == 'L');
        } else if i == 9 {
            assert(s[9] == 'O');
        } else if i == 10 {
            assert(s[10] == 'C');
        } else if i == 11 {
            assert(s[11] == 'K');
        } else if i == 12 {
            assert(s[12] == 'I');
        } else if i == 13 {
            assert(s[13] == 'N');
        } else {
            assert(s[14] == 'G');
        }
    }
}

/// One column of the world: its tag-tree heightmap and its block data.
/// The heightmap field holds the `MOTION_BLOCKING` long array.
#[derive(Debug, PartialEq)]
pub struct ChunkData {
    pub x: i32,
    pub z: i32,
    pub heightmap: Vec<i64>,
    pub chunk_data: Vec<u8>,
}

impl ClientBoundPacket for ChunkData {
    open spec fn payload_spec(&self) -> Seq<u8> {
        be_bytes((self.x as u32) as nat, 4) + be_bytes((self.z as u32) as nat, 4)
            + nbt_long_array_bytes("MOTION_BLOCKING"@, self.heightmap@) + varnum_bytes(
            self.chunk_data@.len(),
        ) + self.chunk_data@ + seq![0u8, 1u8, 0u8, 0u8, 0u8, 0u8, 0u8, 0u8]
    }

    open spec fn id_spec(&self) -> i32 {
        0x20
    }

    open spec fn valid(&self) -> bool {
        self.chunk_data@.len() < 0x8000_0000
    }

    fn encode(&self, encoder: &mut PacketEncoder) {
        encoder.write_int(self.x);
        encoder.write_int(self.z);
        proof {
            lemma_motion_blocking_name_plain();
        }
        let nbt_bytes = encode_nbt_long_array("MOTION_BLOCKING", &self.heightmap);
        encoder.write_bytes(nbt_bytes.as_slice());
        encoder.write_varint(self.chunk_data.len() as i32);
        encoder.write_bytes(self.chunk_data.as_slice());
        // number of block entities
        encoder.write_varint(0);
        // trust edges
        encoder.write_bool(true);
        // light masks
        encoder.write_varint(0);
        encoder.write_varint(0);
        encoder.write_varint(0);
        encoder.write_varint(0);
        // sky light array
        encoder.write_varint(0);
        // block light array
        encoder.write_varint(0);
        assert(final(encoder)@ =~= old(encoder)@ + self.payload_spec()) by {
            assert((self.chunk_data.len() as i32) as u32 as nat == self.chunk_data@.len());
            assert(varnum_bytes(0) =~= seq![0u8]);
        }
    }

    fn packet_id(&self) -> i32 {
        0x20
    }
}

// ---------------------------------------------------------------------------
// Round-trip laws
// ---------------------------------------------------------------------------

/// Law: a keep-alive's nonce reads back out of its payload.
pub proof fn lemma_keep_alive_round_trip(p: &KeepAlive)
    ensures
        be_at(p.payload_spec(), 0, 8) matches Ok((v, j)) && v == (p.data as u64) as nat && j == 8,
{
    let s = p.payload_spec();
    lemma_pow256_concrete();
    lemma_be_bytes_len((p.data as u64) as nat, 8);
    assert(s.subrange(0, s.len() as int) =~= be_bytes((p.data as u64) as nat, 8) + Seq::<
        u8,
    >::empty());
    lemma_be_at_from(s, 0, (p.data as u64) as nat, 8, Seq::empty());
}

/// Law: a ping echo's nonce reads back out of its payload.
pub proof fn lemma_ping_response_round_trip(p: &PingResponse)
    ensures
        be_at(p.payload_spec(), 0, 8) matches Ok((v, j)) && v == (p.data as u64) as nat && j == 8,
{
    let s = p.payload_spec();
    lemma_pow256_concrete();
    lemma_be_bytes_len((p.data as u64) as nat, 8);
    assert(s.subrange(0, s.len() as int) =~= be_bytes((p.data as u64) as nat, 8) + Seq::<
        u8,
    >::empty());
    lemma_be_at_from(s, 0, (p.data as u64) as nat, 8, Seq::empty());
}

/// Law: a status response's document reads back out of its payload.
pub proof fn lemma_status_response_round_trip(p: &StatusResponse)
    requires
        p.valid(),
    ensures
        string_at(p.payload_spec(), 0) == Ok::<(Seq<char>, int), DecodeError>(
            (p.data@, p.payload_spec().len() as int),
        ),
{
    let s = p.payload_spec();
    assert(s.subrange(0, s.len() as int) =~= str_bytes(p.data@) + Seq::<u8>::empty());
    lemma_string_at_from(s, 0, p.data@, Seq::empty());
}

/// Law: a login-state disconnect's reason reads back out of its payload.
pub proof fn lemma_login_disconnect_round_trip(p: &LoginDisconnect)
    requires
        p.valid(),
    ensures
        string_at(p.payload_spec(), 0) == Ok::<(Seq<char>, int), DecodeError>(
            (p.reason@, p.payload_spec().len() as int),
        ),
{
    let s = p.payload_spec();
    assert(s.subrange(0, s.len() as int) =~= str_bytes(p.reason@) + Seq::<u8>::empty());
    lemma_string_at_from(s, 0, p.reason@, Seq::empty());
}

/// Law: a play-state disconnect's reason reads back out of its payload.
pub proof fn lemma_disconnect_round_trip(p: &Disconnect)
    requires
        p.valid(),
    ensures
        string_at(p.payload_spec(), 0) == Ok::<(Seq<char>, int), DecodeError>(
            (p.reason@, p.payload_spec().len() as int),
        ),
{
    let s = p.payload_spec();
    assert(s.subrange(0, s.len() as int) =~= str_bytes(p.reason@) + Seq::<u8>::empty());
    lemma_string_at_from(s, 0, p.reason@, Seq::empty());
}

/// Law: a system chat line's document and overlay flag read back out of
/// its payload.
pub proof fn lemma_system_chat_round_trip(p: &SystemChatMessage)
    requires
        p.valid(),
    ensures
        ({
            let s = p.payload_spec();
            &&& string_at(s, 0) == Ok::<(Seq<char>, int), DecodeError>(
                (p.message@, s.len() - 1),
            )
            &&& s[s.len() - 1] == bool_byte(p.overlay)
        }),
{
    let s = p.payload_spec();
    assert(s.subrange(0, s.len() as int) =~= str_bytes(p.message@) + seq![bool_byte(p.overlay)]);
    lemma_string_at_from(s, 0, p.message@, seq![bool_byte(p.overlay)]);
}

/// Law: an outbound plugin message's channel and bytes read back out of
/// its payload.
pub proof fn lemma_plugin_message_round_trip(p: &PluginMessage)
    requires
        p.valid(),
    ensures
        ({
            let s = p.payload_spec();
            &&& string_at(s, 0) == Ok::<(Seq<char>, int), DecodeError>(
                (p.channel@, str_bytes(p.channel@).len() as int),
            )
            &&& s.subrange(str_bytes(p.channel@).len() as int, s.len() as int) == p.data@
        }),
{
    let s = p.payload_spec();
    assert(s.subrange(0, s.len() as int) =~= str_bytes(p.channel@) + p.data@);
    lemma_string_at_from(s, 0, p.channel@, p.data@);
    assert(s.subrange(str_bytes(p.channel@).len() as int, s.len() as int) =~= p.data@);
}

/// Law: a login-plugin request's ID, channel and bytes read back out of
/// its payload.
pub proof fn lemma_login_plugin_request_round_trip(p: &LoginPluginRequest)
    requires
        p.valid(),
    ensures
        ({
            let s = p.payload_spec();
            let a = varnum_bytes((p.id as u32) as nat);
            let b = str_bytes(p.channel@);
            &&& varint_at(s, 0) == Ok::<(i32, int), DecodeError>((p.id, a.len() as int))
            &&& string_at(s, a.len() as int) == Ok::<(Seq<char>, int), DecodeError>(
                (p.channel@, (a.len() + b.len()) as int),
            )
            &&& s.subrange((a.len() + b.len()) as int, s.len() as int) == p.data@
        }),
{
    let s = p.payload_spec();
    let a = varnum_bytes((p.id as u32) as nat);
    let b = str_bytes(p.channel@);
    assert(s.subrange(0, s.len() as int) =~= a + (b + p.data@));
    lemma_varint_at_from(s, 0, p.id as u32, b + p.data@);
    let pid = p.id;
    assert((pid as u32) as i32 == pid) by (bit_vector);
    assert(s.subrange(a.len() as int, s.len() as int) =~= b + p.data@);
    lemma_string_at_from(s, a.len() as int, p.channel@, p.data@);
    assert(s.subrange((a.len() + b.len()) as int, s.len() as int) =~= p.data@);
}

/// Law: a login grant's identifier, name and empty property count read
/// back out of its payload.
pub proof fn lemma_login_success_round_trip(p: &LoginSuccess)
    requires
        p.valid(),
    ensures
        ({
            let s = p.payload_spec();
            let b = str_bytes(p.name@);
            &&& be_at(s, 0, 16) matches Ok((v, j)) && v == p.uuid as nat && j == 16
            &&& string_at(s, 16) == Ok::<(Seq<char>, int), DecodeError>(
                (p.name@, 16 + b.len() as int),
            )
            &&& varint_at(s, 16 + b.len() as int) == Ok::<(i32, int), DecodeError>(
                (0, s.len() as int),
            )
        }),
{
    let s = p.payload_spec();
    let b = str_bytes(p.name@);
    lemma_pow256_concrete();
    lemma_be_bytes_len(p.uuid as nat, 16);
    assert(s.subrange(0, s.len() as int) =~= be_bytes(p.uuid as nat, 16) + (b + varnum_bytes(0)));
    lemma_be_at_from(s, 0, p.uuid as nat, 16, b + varnum_bytes(0));
    assert(s.subrange(16, s.len() as int) =~= b + varnum_bytes(0));
    lemma_string_at_from(s, 16, p.name@, varnum_bytes(0));
    assert(s.subrange(16 + b.len() as int, s.len() as int) =~= varnum_bytes(0) + Seq::<
        u8,
    >::empty());
    lemma_varint_at_from(s, 16 + b.len() as int, 0, Seq::empty());
}

/// Law: the packed spawn point and angle read back out of the payload,
/// and unpacking the word recovers the coordinates.
pub proof fn lemma_spawn_position_round_trip(p: &SetDefaultSpawnPosition)
    requires
        p.pos.in_range(),
    ensures
        ({
            let s = p.payload_spec();
            &&& be_at(s, 0, 8) matches Ok((w, j)) && w == position_word(p.pos) as nat && j == 8
            &&& be_at(s, 8, 4) matches Ok((a, j)) && a == p.angle as nat && j == 12
            &&& crate::protocol::position_unpack_x(position_word(p.pos)) == p.pos.x
            &&& crate::protocol::position_unpack_y(position_word(p.pos)) == p.pos.y
            &&& crate::protocol::position_unpack_z(position_word(p.pos)) == p.pos.z
        }),
{
    let s = p.payload_spec();
    lemma_pow256_concrete();
    lemma_be_bytes_len(position_word(p.pos) as nat, 8);
    lemma_be_bytes_len(p.angle as nat, 4);
    assert(s.subrange(0, s.len() as int) =~= be_bytes(position_word(p.pos) as nat, 8) + (be_bytes(
        p.angle as nat,
        4,
    ) + Seq::<u8>::empty()));
    lemma_be_at_from(s, 0, position_word(p.pos) as nat, 8, be_bytes(p.angle as nat, 4));
    assert(s.subrange(8, s.len() as int) =~= be_bytes(p.angle as nat, 4) + Seq::<u8>::empty());
    lemma_be_at_from(s, 8, p.angle as nat, 4, Seq::empty());
    crate::protocol::lemma_position_round_trip(p.pos);
}

/// Law: a position sync's coordinate and rotation bit patterns read
/// back out of the payload in order.
pub proof fn lemma_sync_position_round_trip(p: &SyncPlayerPosition)
    ensures
        ({
            let s = p.payload_spec();
            &&& be_at(s, 0, 8) matches Ok((v, _)) && v == p.x as nat
            &&& be_at(s, 8, 8) matches Ok((v, _)) && v == p.y as nat
            &&& be_at(s, 16, 8) matches Ok((v, _)) && v == p.z as nat
            &&& be_at(s, 24, 4) matches Ok((v, _)) && v == p.yaw as nat
            &&& be_at(s, 28, 4) matches Ok((v, _)) && v == p.pitch as nat
            &&& s[32] == p.flags as u8
        }),
{
    let s = p.payload_spec();
    lemma_pow256_concrete();
    lemma_be_bytes_len(p.x as nat, 8);
    lemma_be_bytes_len(p.y as nat, 8);
    lemma_be_bytes_len(p.z as nat, 8);
    lemma_be_bytes_len(p.yaw as nat, 4);
    lemma_be_bytes_len(p.pitch as nat, 4);
    let rest1 = be_bytes(p.y as nat, 8) + be_bytes(p.z as nat, 8) + be_bytes(p.yaw as nat, 4)
        + be_bytes(p.pitch as nat, 4) + seq![p.flags as u8] + varnum_bytes(
        (p.teleport_id as u32) as nat,
    ) + seq![bool_byte(p.dismount)];
    assert(s.subrange(0, s.len() as int) =~= be_bytes(p.x as nat, 8) + rest1);
    lemma_be_at_from(s, 0, p.x as nat, 8, rest1);
    let rest2 = rest1.subrange(8, rest1.len() as int);
    assert(s.subrange(8, s.len() as int) =~= be_bytes(p.y as nat, 8) + rest2);
    lemma_be_at_from(s, 8, p.y as nat, 8, rest2);
    let rest3 = rest2.subrange(8, rest2.len() as int);
    assert(s.subrange(16, s.len() as int) =~= be_bytes(p.z as nat, 8) + rest3);
    lemma_be_at_from(s, 16, p.z as nat, 8, rest3);
    let rest4 = rest3.subrange(4, rest3.len() as int);
    assert(s.subrange(24, s.len() as int) =~= be_bytes(p.yaw as nat, 4) + rest4);
    lemma_be_at_from(s, 24, p.yaw as nat, 4, rest4);
    let rest5 = rest4.subrange(4, rest4.len() as int);
    assert(s.subrange(28, s.len() as int) =~= be_bytes(p.pitch as nat, 4) + rest5);
    lemma_be_at_from(s, 28, p.pitch as nat, 4, rest5);
}

/// Law: the ability flags and the two speed bit patterns read back out
/// of the payload.
pub proof fn lemma_player_abilities_round_trip(p: &PlayerAbilities)
    ensures
        ({
            let s = p.payload_spec();
            &&& s[0] == p.flags as u8
            &&& be_at(s, 1, 4) matches Ok((v, _)) && v == p.fly_speed as nat
            &&& be_at(s, 5, 4) matches Ok((v, _)) && v == p.fov_modifier as nat
        }),
{
    let s = p.payload_spec();
    lemma_pow256_concrete();
    lemma_be_bytes_len(p.fly_speed as nat, 4);
    lemma_be_bytes_len(p.fov_modifier as nat, 4);
    assert(s.subrange(1, s.len() as int) =~= be_bytes(p.fly_speed as nat, 4) + be_bytes(
        p.fov_modifier as nat,
        4,
    ));
    lemma_be_at_from(s, 1, p.fly_speed as nat, 4, be_bytes(p.fov_modifier as nat, 4));
    assert(s.subrange(5, s.len() as int) =~= be_bytes(p.fov_modifier as nat, 4) + Seq::<
        u8,
    >::empty());
    lemma_be_at_from(s, 5, p.fov_modifier as nat, 4, Seq::empty());
}

} // verus!
