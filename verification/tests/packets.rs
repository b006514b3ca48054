use quectocraft::clientbound::{
    encode_packet, ChunkData, Disconnect, KeepAlive, LoginDisconnect, LoginPlay,
    LoginPluginRequest, LoginSuccess, PingResponse, PlayerAbilities, PluginMessage,
    SetDefaultSpawnPosition, StatusResponse, SyncPlayerPosition, SystemChatMessage,
};
use quectocraft::command::{CommandNodeType, Commands, Parser, StringKind};
use quectocraft::data::{encode_varint, read_varint, DecodeError, PacketDecoder, PacketEncoder};
use quectocraft::protocol::{NetworkState, Position};
use quectocraft::serverbound::{
    ChatMessage, Handshake, LoginPluginResponse, LoginStart, SPluginMessage, ServerBoundPacket,
};

fn decoder_for(body: Vec<u8>) -> PacketDecoder {
    PacketDecoder::decode(body).expect("frame body should parse")
}

fn body_with_id(id: i32, payload: Vec<u8>) -> Vec<u8> {
    let mut body = encode_varint(id);
    body.extend(payload);
    body
}

#[test]
fn handshake_round_trip() {
    let mut enc = PacketEncoder::new();
    enc.write_varint(761);
    enc.write_string(255, "play.example.org");
    enc.write_ushort(25565);
    enc.write_varint(2);
    let h = Handshake::decode(decoder_for(body_with_id(0x00, enc.to_data()))).unwrap();
    assert_eq!(h.version, 761);
    assert_eq!(h.addr, "play.example.org");
    assert_eq!(h.port, 25565);
    assert_eq!(h.next_state, 2);
}

#[test]
fn login_start_round_trip() {
    let uuid = 0x123e4567e89b12d3a456426614174000u128;
    let mut enc = PacketEncoder::new();
    enc.write_string(16, "Alice");
    enc.write_bool(true);
    enc.write_uuid(uuid);
    let p = LoginStart::decode(decoder_for(body_with_id(0x00, enc.to_data()))).unwrap();
    assert_eq!(p.name, "Alice");
    assert_eq!(p.uuid, uuid);
}

#[test]
fn login_start_without_uuid_rejected() {
    let mut enc = PacketEncoder::new();
    enc.write_string(16, "Alice");
    enc.write_bool(false);
    let r = LoginStart::decode(decoder_for(body_with_id(0x00, enc.to_data())));
    assert_eq!(r, Err(DecodeError::MissingUuid));
}

#[test]
fn chat_message_round_trip() {
    let mut enc = PacketEncoder::new();
    enc.write_string(256, "hello there");
    enc.write_long(1700000000123);
    let m = ChatMessage::decode(decoder_for(body_with_id(0x05, enc.to_data()))).unwrap();
    assert_eq!(m.message, "hello there");
    assert_eq!(m.timestamp, 1700000000123);
}

#[test]
fn login_plugin_response_round_trip() {
    let mut enc = PacketEncoder::new();
    enc.write_varint(10);
    enc.write_bool(true);
    enc.write_bytes(&[1, 2, 3]);
    let p = LoginPluginResponse::decode(decoder_for(body_with_id(0x02, enc.to_data()))).unwrap();
    assert_eq!(p.id, 10);
    assert_eq!(p.data, Some(vec![1, 2, 3]));

    let mut enc = PacketEncoder::new();
    enc.write_varint(-1);
    enc.write_bool(false);
    let p = LoginPluginResponse::decode(decoder_for(body_with_id(0x02, enc.to_data()))).unwrap();
    assert_eq!(p.id, -1);
    assert_eq!(p.data, None);
}

#[test]
fn plugin_message_round_trip() {
    let mut enc = PacketEncoder::new();
    enc.write_string(128, "minecraft:brand");
    enc.write_bytes(&[4, 5, 6]);
    let p = SPluginMessage::decode(decoder_for(body_with_id(0x0C, enc.to_data()))).unwrap();
    assert_eq!(p.channel, "minecraft:brand");
    assert_eq!(p.data, vec![4, 5, 6]);
}

#[test]
fn dispatch_handshake_moves_state() {
    let mut enc = PacketEncoder::new();
    enc.write_varint(761);
    enc.write_string(255, "localhost");
    enc.write_ushort(25565);
    enc.write_varint(1);
    let mut state = NetworkState::Handshake;
    let p = ServerBoundPacket::decode(&mut state, decoder_for(body_with_id(0x00, enc.to_data())))
        .unwrap();
    assert!(matches!(p, ServerBoundPacket::Handshake(_)));
    assert_eq!(state, NetworkState::Status);
}

#[test]
fn dispatch_handshake_bad_next_state_fatal() {
    let mut enc = PacketEncoder::new();
    enc.write_varint(761);
    enc.write_string(255, "localhost");
    enc.write_ushort(25565);
    enc.write_varint(3);
    let mut state = NetworkState::Handshake;
    let r = ServerBoundPacket::decode(&mut state, decoder_for(body_with_id(0x00, enc.to_data())));
    assert_eq!(r, Err(DecodeError::InvalidNextState));
    assert_eq!(state, NetworkState::Handshake);
}

#[test]
fn dispatch_unknown_pairs_yield_unknown_and_keep_state() {
    // a sample of (state, id) pairs outside the table
    let cases = [
        (NetworkState::Handshake, 0x05),
        (NetworkState::Status, 0x02),
        (NetworkState::Login, 0x01),
        (NetworkState::Play, 0x00),
        (NetworkState::Play, 0x42),
    ];
    for (start, id) in cases {
        let mut state = start;
        let p = ServerBoundPacket::decode(&mut state, decoder_for(body_with_id(id, vec![1, 2, 3])))
            .unwrap();
        assert_eq!(p, ServerBoundPacket::Unknown(id));
        assert_eq!(state, start);
    }
}

#[test]
fn dispatch_ignored_pairs_are_dropped_silently() {
    for id in [0x11, 0x13, 0x14, 0x15, 0x1d] {
        let mut state = NetworkState::Play;
        let p = ServerBoundPacket::decode(&mut state, decoder_for(body_with_id(id, vec![9, 9])))
            .unwrap();
        assert_eq!(p, ServerBoundPacket::Ignored(id));
        assert_eq!(state, NetworkState::Play);
    }
}

#[test]
fn dispatch_login_barrier_moves_to_play() {
    let mut enc = PacketEncoder::new();
    enc.write_varint(-1);
    enc.write_bool(false);
    let mut state = NetworkState::Login;
    let p = ServerBoundPacket::decode(&mut state, decoder_for(body_with_id(0x02, enc.to_data())))
        .unwrap();
    assert!(matches!(p, ServerBoundPacket::LoginPluginResponse(_)));
    assert_eq!(state, NetworkState::Play);
}

#[test]
fn dispatch_status_and_ping() {
    let mut state = NetworkState::Status;
    let p = ServerBoundPacket::decode(&mut state, decoder_for(body_with_id(0x00, Vec::new())))
        .unwrap();
    assert_eq!(p, ServerBoundPacket::StatusRequest());
    let mut enc = PacketEncoder::new();
    enc.write_long(777);
    let p = ServerBoundPacket::decode(&mut state, decoder_for(body_with_id(0x01, enc.to_data())))
        .unwrap();
    assert_eq!(p, ServerBoundPacket::PingRequest(777));
    assert_eq!(state, NetworkState::Status);
}

#[test]
fn keep_alive_frame_bytes() {
    let frame = encode_packet(KeepAlive { data: 0 });
    assert_eq!(frame, vec![9, 0x1f, 0, 0, 0, 0, 0, 0, 0, 0]);
}

#[test]
fn ping_response_frame_bytes() {
    let frame = encode_packet(PingResponse { data: 0x0102030405060708 });
    assert_eq!(frame, vec![9, 0x01, 1, 2, 3, 4, 5, 6, 7, 8]);
}

#[test]
fn status_response_frame_bytes() {
    let frame = encode_packet(StatusResponse { data: "{}".to_owned() });
    assert_eq!(frame, vec![4, 0x00, 2, b'{', b'}']);
}

#[test]
fn login_success_frame_bytes() {
    let uuid = 0x00112233445566778899aabbccddeeffu128;
    let frame = encode_packet(LoginSuccess { uuid, name: "Bob".to_owned() });
    let mut expected = vec![(16 + 4 + 1 + 1) as u8, 0x02];
    expected.extend(uuid.to_be_bytes());
    expected.extend(vec![3, b'B', b'o', b'b', 0]);
    assert_eq!(frame, expected);
}

#[test]
fn login_plugin_request_frame_bytes() {
    let frame = encode_packet(LoginPluginRequest {
        id: -1,
        channel: "qc:init".to_owned(),
        data: Vec::new(),
    });
    let mut expected = vec![14, 0x04, 0xff, 0xff, 0xff, 0xff, 0x0f, 7];
    expected.extend(b"qc:init");
    assert_eq!(frame, expected);
}

#[test]
fn system_chat_frame_bytes() {
    let frame = encode_packet(SystemChatMessage { message: "{}".to_owned(), overlay: false });
    assert_eq!(frame, vec![5, 0x60, 2, b'{', b'}', 0]);
}

#[test]
fn disconnect_frame_bytes() {
    let frame = encode_packet(Disconnect { reason: "{}".to_owned() });
    assert_eq!(frame, vec![4, 0x17, 2, b'{', b'}']);
}

#[test]
fn sync_player_position_encodes_bit_patterns() {
    let frame = encode_packet(SyncPlayerPosition {
        x: (1.5f64).to_bits(),
        y: (64.0f64).to_bits(),
        z: (-2.25f64).to_bits(),
        yaw: (90.0f32).to_bits(),
        pitch: 0,
        flags: 0,
        teleport_id: 5,
        dismount: false,
    });
    let mut expected = vec![36u8, 0x38];
    expected.extend((1.5f64).to_bits().to_be_bytes());
    expected.extend((64.0f64).to_bits().to_be_bytes());
    expected.extend((-2.25f64).to_bits().to_be_bytes());
    expected.extend((90.0f32).to_bits().to_be_bytes());
    expected.extend((0.0f32).to_bits().to_be_bytes());
    expected.extend(vec![0, 5, 0]);
    assert_eq!(frame, expected);
}

#[test]
fn spawn_position_packs_coordinates() {
    let frame = encode_packet(SetDefaultSpawnPosition {
        pos: Position { x: 1, y: 2, z: 3 },
        angle: 0,
    });
    let word = (1u64 << 38) | (3u64 << 12) | 2;
    let mut expected = vec![13u8, 0x4c];
    expected.extend(word.to_be_bytes());
    expected.extend([0u8; 4]);
    assert_eq!(frame, expected);
}

#[test]
fn login_play_encodes_dimension_list_and_registry() {
    let frame = encode_packet(LoginPlay {
        eid: 7,
        is_hardcore: false,
        gamemode: 3,
        prev_gamemode: 3,
        dimensions: vec!["qc:world".to_owned()],
        registry_codec: vec![0xAA, 0xBB],
        dimension_type: "minecraft:the_end".to_owned(),
        dimension_name: "qc:world".to_owned(),
        seed_hash: 0,
        max_players: 0,
        view_distance: 8,
        sim_distance: 8,
        reduced_debug_info: false,
        respawn_screen: false,
        is_debug: false,
        is_flat: false,
        death_location: None,
    });
    let mut payload = vec![0u8, 0, 0, 7, 0, 3, 3, 1];
    payload.extend([8]);
    payload.extend(b"qc:world");
    payload.extend([0xAA, 0xBB]);
    payload.extend([17]);
    payload.extend(b"minecraft:the_end");
    payload.extend([8]);
    payload.extend(b"qc:world");
    payload.extend([0u8; 8]);
    payload.extend([0, 8, 8, 0, 0, 0, 0, 0]);
    let mut expected = encode_varint((payload.len() + 1) as i32);
    expected.push(0x24);
    expected.extend(payload);
    assert_eq!(frame, expected);
}

#[test]
fn plugin_message_frame_bytes() {
    let frame = encode_packet(PluginMessage { channel: "a:b".to_owned(), data: vec![1, 2] });
    assert_eq!(frame, vec![7, 0x15, 3, b'a', b':', b'b', 1, 2]);
}

#[test]
fn chunk_data_embeds_real_tag_tree() {
    let heightmap = vec![1i64, -2, 3];
    let frame = encode_packet(ChunkData {
        x: 5,
        z: -6,
        heightmap: heightmap.clone(),
        chunk_data: vec![0xCC],
    });
    let mut blob = nbt::Blob::new();
    blob.insert("MOTION_BLOCKING", heightmap).unwrap();
    let mut tag_bytes: Vec<u8> = Vec::new();
    blob.to_writer(&mut tag_bytes).unwrap();
    let mut payload: Vec<u8> = Vec::new();
    payload.extend(5i32.to_be_bytes());
    payload.extend((-6i32).to_be_bytes());
    payload.extend(&tag_bytes);
    payload.extend([1, 0xCC]);
    payload.extend([0, 1, 0, 0, 0, 0, 0, 0]);
    let mut expected = encode_varint((payload.len() + 1) as i32);
    expected.push(0x20);
    expected.extend(payload);
    assert_eq!(frame, expected);
}

#[test]
fn commands_new_has_root_and_greedy_argument() {
    let c = Commands::new();
    assert_eq!(c.nodes.len(), 2);
    assert!(matches!(c.nodes[0].type_data, CommandNodeType::Root));
    match &c.nodes[1].type_data {
        CommandNodeType::Argument { name, parser } => {
            assert_eq!(name, "[args]");
            assert_eq!(*parser, Parser::Str { kind: StringKind::Greedy });
        },
        _ => panic!("node 1 should be the shared argument node"),
    }
}

#[test]
fn commands_create_node_refusals() {
    let mut c = Commands::new();
    assert_eq!(c.create_node(5, CommandNodeType::Literal { name: "x".to_owned() }, true, None, None), None);
    assert_eq!(c.create_node(-1, CommandNodeType::Literal { name: "x".to_owned() }, true, None, None), None);
    assert_eq!(c.create_node(0, CommandNodeType::Root, true, None, None), None);
    assert_eq!(c.create_node(0, CommandNodeType::Literal { name: "x".to_owned() }, true, Some(9), None), None);
    assert_eq!(c.nodes.len(), 2);
}

#[test]
fn commands_simple_cmd_shape_and_encoding() {
    let mut c = Commands::new();
    let id = c.create_simple_cmd("tp").unwrap();
    assert_eq!(id, 2);
    assert_eq!(c.nodes[0].children, vec![2]);
    assert_eq!(c.nodes[2].children, vec![1]);
    assert!(c.check_valid());
    let frame = encode_packet(c);
    let (len, used) = read_varint(&frame).unwrap();
    assert_eq!(len as usize, frame.len() - used);
    let mut dec = decoder_for(frame[used..].to_vec());
    assert_eq!(dec.packet_id(), 0x0e);
    let rest = dec.read_to_end();
    // node count, root node (kind 0, one child: 2)
    assert_eq!(&rest[..4], &[3, 0x00, 1, 2]);
    // argument node: kind 2 | executable, one child? none; then name and parser
    let mut expected_arg = vec![0x06u8, 0, 6];
    expected_arg.extend(b"[args]");
    expected_arg.extend([5, 2]);
    assert_eq!(&rest[4..4 + expected_arg.len()], &expected_arg[..]);
    // literal node: kind 1 | executable, one child: 1, then the name
    let lit_start = 4 + expected_arg.len();
    let mut expected_lit = vec![0x05u8, 1, 1, 2];
    expected_lit.extend(b"tp");
    assert_eq!(&rest[lit_start..lit_start + expected_lit.len()], &expected_lit[..]);
    // trailing root index
    assert_eq!(rest[rest.len() - 1], 0);
}

#[test]
fn parser_numeric_bounds_encoding() {
    let mut enc = PacketEncoder::new();
    Parser::Int { min: Some(-3), max: None }.encode(&mut enc);
    let mut expected = vec![3u8, 1];
    expected.extend((-3i32).to_be_bytes());
    assert_eq!(enc.to_data(), expected);

    let mut enc = PacketEncoder::new();
    Parser::Long { min: None, max: Some(9) }.encode(&mut enc);
    let mut expected = vec![4u8, 2];
    expected.extend(9i64.to_be_bytes());
    assert_eq!(enc.to_data(), expected);

    let mut enc = PacketEncoder::new();
    Parser::Float { min: Some((0.5f32).to_bits()), max: Some((2.0f32).to_bits()) }.encode(&mut enc);
    let mut expected = vec![1u8, 3];
    expected.extend((0.5f32).to_bits().to_be_bytes());
    expected.extend((2.0f32).to_bits().to_be_bytes());
    assert_eq!(enc.to_data(), expected);

    let mut enc = PacketEncoder::new();
    Parser::Bool.encode(&mut enc);
    assert_eq!(enc.to_data(), vec![0]);
}

#[test]
fn login_disconnect_frame_bytes() {
    let frame = encode_packet(LoginDisconnect { reason: "{}".to_owned() });
    assert_eq!(frame, vec![4, 0x00, 2, b'{', b'}']);
}

#[test]
fn player_abilities_frame_bytes() {
    let frame = encode_packet(PlayerAbilities {
        flags: 0x0f,
        fly_speed: (0.05f32).to_bits(),
        fov_modifier: (0.1f32).to_bits(),
    });
    let mut expected = vec![10u8, 0x30, 0x0f];
    expected.extend((0.05f32).to_bits().to_be_bytes());
    expected.extend((0.1f32).to_bits().to_be_bytes());
    assert_eq!(frame, expected);
}

#[test]
fn sig_data_carries_fields() {
    let sig = quectocraft::serverbound::SigData {
        timestamp: 77,
        pubkey: vec![1, 2],
        sig: vec![3, 4],
    };
    assert_eq!(sig.timestamp, 77);
    assert_eq!(sig.pubkey, vec![1, 2]);
    assert_eq!(sig.sig, vec![3, 4]);
}
