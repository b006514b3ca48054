use hmac::{Hmac, KeyInit, Mac};
use quectocraft::command::Commands;
use quectocraft::config::{Config, LoginMode};
use quectocraft::data::read_varint;
use quectocraft::serverbound::{ChatMessage, LoginPluginResponse, LoginStart, ServerBoundPacket};
use quectocraft::server::{Action, NetworkServer, Response};
use sha2::Sha256;

fn offline_server() -> NetworkServer {
    let config = Config { login: LoginMode::Offline, velocity_secret: None };
    NetworkServer::new(config, vec![0x0A, 0x00, 0x00, 0x00], &Commands::new(), 1024).unwrap()
}

fn velocity_server(secret: &str) -> NetworkServer {
    let config = Config { login: LoginMode::Velocity, velocity_secret: Some(secret.to_owned()) };
    NetworkServer::new(config, vec![0x0A, 0x00, 0x00, 0x00], &Commands::new(), 1024).unwrap()
}

fn frame_packet_id(bytes: &[u8]) -> i32 {
    let (_, used) = read_varint(bytes).expect("frame length");
    let (id, _) = read_varint(&bytes[used..]).expect("packet id");
    id
}

fn login_start(name: &str, uuid: u128) -> ServerBoundPacket {
    ServerBoundPacket::LoginStart(LoginStart { name: name.to_owned(), uuid })
}

fn login_barrier() -> ServerBoundPacket {
    ServerBoundPacket::LoginPluginResponse(LoginPluginResponse { id: -1, data: None })
}

fn admit_offline(server: &mut NetworkServer, i: usize, name: &str, uuid: u128) {
    let acts = server.handle_packet(i, login_start(name, uuid));
    assert_eq!(acts.len(), 1);
    let acts = server.handle_packet(i, login_barrier());
    assert_eq!(acts.len(), 8);
}

#[test]
fn config_validation() {
    let bad = Config { login: LoginMode::Velocity, velocity_secret: None };
    assert!(!bad.validate());
    let ok = Config { login: LoginMode::Velocity, velocity_secret: Some("s".to_owned()) };
    assert!(ok.validate());
    let offline = Config { login: LoginMode::Offline, velocity_secret: None };
    assert!(offline.validate());
}

#[test]
fn status_and_ping_scenario() {
    // client sends Handshake(next_state=1), then StatusRequest, then Ping(n)
    let mut server = offline_server();
    server.accept_client(0);
    let acts = server.handle_packet(0, ServerBoundPacket::StatusRequest());
    assert_eq!(acts.len(), 1);
    match &acts[0] {
        Action::Send { client, bytes } => {
            assert_eq!(*client, 0);
            assert_eq!(frame_packet_id(bytes), 0x00);
            let text = String::from_utf8(bytes[3..].to_vec()).unwrap();
            assert!(text.contains("1.19.3"));
            assert!(text.contains("761"));
        },
        other => panic!("expected a send, got {:?}", other),
    }
    let acts = server.handle_packet(0, ServerBoundPacket::PingRequest(424242));
    assert_eq!(acts.len(), 2);
    match &acts[0] {
        Action::Send { client, bytes } => {
            assert_eq!(*client, 0);
            assert_eq!(bytes, &vec![9, 0x01, 0, 0, 0, 0, 0, 6, 121, 50]);
        },
        other => panic!("expected a send, got {:?}", other),
    }
    assert_eq!(acts[1], Action::Close { client: 0 });
    assert!(server.clients[0].closed);
}

#[test]
fn offline_login_bootstrap_sequence() {
    let mut server = offline_server();
    server.accept_client(0);
    let uuid = 0x123e4567e89b12d3a456426614174000u128;

    let acts = server.handle_packet(0, login_start("Alice", uuid));
    assert_eq!(acts.len(), 1);
    match &acts[0] {
        Action::Send { client, bytes } => {
            assert_eq!(*client, 0);
            assert_eq!(frame_packet_id(bytes), 0x04);
        },
        other => panic!("expected the init round trip, got {:?}", other),
    }
    assert!(server.clients[0].verified);

    let acts = server.handle_packet(0, login_barrier());
    assert_eq!(acts.len(), 8);
    match &acts[0] {
        Action::Send { bytes, .. } => assert_eq!(frame_packet_id(bytes), 0x02),
        other => panic!("expected the login grant, got {:?}", other),
    }
    match &acts[1] {
        Action::PlayerJoin { player } => {
            assert_eq!(player.name, "Alice");
            assert_eq!(player.uuid, uuid);
        },
        other => panic!("expected exactly one join, got {:?}", other),
    }
    let expected_ids = [0x24, 0x15, 0x0e, 0x20, 0x4c, 0x38];
    for (k, want) in expected_ids.iter().enumerate() {
        match &acts[2 + k] {
            Action::Send { client, bytes } => {
                assert_eq!(*client, 0);
                assert_eq!(frame_packet_id(bytes), *want);
            },
            other => panic!("expected a send, got {:?}", other),
        }
    }
}

#[test]
fn duplicate_login_rejected() {
    let mut server = offline_server();
    server.accept_client(0);
    server.accept_client(1);
    let uuid = 7u128;
    admit_offline(&mut server, 0, "Alice", uuid);

    let acts = server.handle_packet(1, login_start("Mallory", uuid));
    assert_eq!(acts.len(), 2);
    match &acts[0] {
        Action::Send { client, bytes } => {
            assert_eq!(*client, 1);
            assert_eq!(frame_packet_id(bytes), 0x00);
            let text = String::from_utf8(bytes[3..].to_vec()).unwrap();
            assert!(text.contains("duplicate_login"));
        },
        other => panic!("expected a disconnect, got {:?}", other),
    }
    assert_eq!(acts[1], Action::Close { client: 1 });
    assert!(server.clients[1].player.is_none());
    assert!(server.clients[1].closed);
    // the registry still holds exactly one player with that identity
    let holders = server
        .clients
        .iter()
        .filter(|c| c.player.as_ref().map(|p| p.uuid) == Some(uuid))
        .count();
    assert_eq!(holders, 1);
}

#[test]
fn unverified_login_rejected() {
    let mut server = velocity_server("hunter2");
    server.accept_client(0);
    let acts = server.handle_packet(0, login_start("Alice", 9));
    assert_eq!(acts.len(), 1);
    assert!(!server.clients[0].verified);
    // skipping the proxy round trip: the finalize step must refuse
    let acts = server.handle_packet(0, login_barrier());
    assert_eq!(acts.len(), 2);
    match &acts[0] {
        Action::Send { bytes, .. } => {
            assert_eq!(frame_packet_id(bytes), 0x17);
            let text = String::from_utf8(bytes[3..].to_vec()).unwrap();
            assert!(text.contains("Failed to verify"));
        },
        other => panic!("expected a disconnect, got {:?}", other),
    }
    assert!(server.clients[0].closed);
}

#[test]
fn proxy_login_accepts_valid_signature() {
    let secret = "s3cr3t";
    let mut server = velocity_server(secret);
    server.accept_client(0);
    let acts = server.handle_packet(0, login_start("Alice", 11));
    assert_eq!(acts.len(), 1);
    match &acts[0] {
        Action::Send { bytes, .. } => assert_eq!(frame_packet_id(bytes), 0x04),
        other => panic!("expected the forwarding request, got {:?}", other),
    }

    let body = vec![1u8, 2, 3, 4, 5];
    let mut mac = Hmac::<Sha256>::new_from_slice(secret.as_bytes()).unwrap();
    mac.update(&body);
    let mut payload: Vec<u8> = mac.finalize().into_bytes().to_vec();
    payload.extend(&body);

    let acts = server.handle_packet(
        0,
        ServerBoundPacket::LoginPluginResponse(LoginPluginResponse {
            id: 10,
            data: Some(payload),
        }),
    );
    assert_eq!(acts.len(), 1);
    assert!(server.clients[0].verified);

    let acts = server.handle_packet(0, login_barrier());
    assert_eq!(acts.len(), 8);
}

#[test]
fn proxy_login_rejects_flipped_signature() {
    let secret = "s3cr3t";
    let mut server = velocity_server(secret);
    server.accept_client(0);
    server.handle_packet(0, login_start("Alice", 11));

    let body = vec![1u8, 2, 3, 4, 5];
    let mut mac = Hmac::<Sha256>::new_from_slice(secret.as_bytes()).unwrap();
    mac.update(&body);
    let mut payload: Vec<u8> = mac.finalize().into_bytes().to_vec();
    payload[4] ^= 0x01;
    payload.extend(&body);

    let acts = server.handle_packet(
        0,
        ServerBoundPacket::LoginPluginResponse(LoginPluginResponse {
            id: 10,
            data: Some(payload),
        }),
    );
    assert_eq!(acts.len(), 2);
    match &acts[0] {
        Action::Send { bytes, .. } => {
            assert_eq!(frame_packet_id(bytes), 0x17);
            let text = String::from_utf8(bytes[3..].to_vec()).unwrap();
            assert!(text.contains("Could not verify secret"));
        },
        other => panic!("expected a disconnect, got {:?}", other),
    }
    assert!(!server.clients[0].verified);
    assert!(server.clients[0].closed);
}

#[test]
fn proxy_login_rejects_flipped_payload() {
    let secret = "s3cr3t";
    let mut server = velocity_server(secret);
    server.accept_client(0);
    server.handle_packet(0, login_start("Alice", 11));

    let body = vec![1u8, 2, 3, 4, 5];
    let mut mac = Hmac::<Sha256>::new_from_slice(secret.as_bytes()).unwrap();
    mac.update(&body);
    let mut payload: Vec<u8> = mac.finalize().into_bytes().to_vec();
    payload.extend(&body);
    let last = payload.len() - 1;
    payload[last] ^= 0x80;

    let acts = server.handle_packet(
        0,
        ServerBoundPacket::LoginPluginResponse(LoginPluginResponse {
            id: 10,
            data: Some(payload),
        }),
    );
    assert_eq!(acts.len(), 2);
    assert!(!server.clients[0].verified);
}

#[test]
fn proxy_login_without_payload_rejected() {
    let mut server = velocity_server("s");
    server.accept_client(0);
    server.handle_packet(0, login_start("Alice", 11));
    let acts = server.handle_packet(
        0,
        ServerBoundPacket::LoginPluginResponse(LoginPluginResponse { id: 10, data: None }),
    );
    assert_eq!(acts.len(), 2);
    match &acts[0] {
        Action::Send { bytes, .. } => {
            let text = String::from_utf8(bytes[3..].to_vec()).unwrap();
            assert!(text.contains("Velocity proxy"));
        },
        other => panic!("expected a disconnect, got {:?}", other),
    }
}

#[test]
fn stray_plugin_response_rejected() {
    let mut server = offline_server();
    server.accept_client(0);
    let acts = server.handle_packet(
        0,
        ServerBoundPacket::LoginPluginResponse(LoginPluginResponse { id: 3, data: None }),
    );
    assert_eq!(acts.len(), 2);
    match &acts[0] {
        Action::Send { bytes, .. } => {
            let text = String::from_utf8(bytes[3..].to_vec()).unwrap();
            assert!(text.contains("bad plugin response"));
        },
        other => panic!("expected a disconnect, got {:?}", other),
    }
    assert!(server.clients[0].closed);
}

#[test]
fn keep_alive_cadence_over_ticks() {
    let config = Config { login: LoginMode::Offline, velocity_secret: None };
    let mut server = NetworkServer::new(config, Vec::new(), &Commands::new(), 4).unwrap();
    server.accept_client(0);
    admit_offline(&mut server, 0, "Alice", 1);
    let mut keep_alives = 0;
    for _ in 0..13 {
        let acts = server.tick();
        for a in &acts {
            match a {
                Action::Send { bytes, .. } => {
                    assert_eq!(frame_packet_id(bytes), 0x1f);
                    keep_alives += 1;
                },
                other => panic!("a tick only sends keep-alives, got {:?}", other),
            }
        }
    }
    // 13 ticks at interval 4: exactly three rounds
    assert_eq!(keep_alives, 3);
}

#[test]
fn keep_alive_skips_sessions_without_player() {
    let config = Config { login: LoginMode::Offline, velocity_secret: None };
    let mut server = NetworkServer::new(config, Vec::new(), &Commands::new(), 1).unwrap();
    server.accept_client(0);
    server.accept_client(1);
    admit_offline(&mut server, 1, "Bob", 2);
    let acts = server.tick();
    assert_eq!(acts.len(), 1);
    match &acts[0] {
        Action::Send { client, .. } => assert_eq!(*client, 1),
        other => panic!("expected a send, got {:?}", other),
    }
}

#[test]
fn failed_connection_leaves_exactly_once_and_is_removed() {
    let mut server = offline_server();
    server.accept_client(0);
    server.accept_client(1);
    admit_offline(&mut server, 0, "Alice", 1);

    let acts = server.connection_lost(0);
    assert_eq!(acts.len(), 2);
    match &acts[0] {
        Action::PlayerLeave { player } => assert_eq!(player.name, "Alice"),
        other => panic!("expected exactly one leave, got {:?}", other),
    }
    assert_eq!(acts[1], Action::Close { client: 0 });

    // a second report of the same dead connection does nothing
    let acts = server.connection_lost(0);
    assert!(acts.is_empty());

    server.remove_closed();
    assert_eq!(server.clients.len(), 1);
    assert_eq!(server.clients[0].id, 1);
}

#[test]
fn chat_message_reaches_bridge() {
    let mut server = offline_server();
    server.accept_client(0);
    admit_offline(&mut server, 0, "Alice", 1);
    let acts = server.handle_packet(
        0,
        ServerBoundPacket::ChatMessage(ChatMessage { message: "hi all".to_owned(), timestamp: 0 }),
    );
    assert_eq!(acts.len(), 1);
    match &acts[0] {
        Action::ChatEvent { player, message } => {
            assert_eq!(player.name, "Alice");
            assert_eq!(message, "hi all");
        },
        other => panic!("expected a chat event, got {:?}", other),
    }
}

#[test]
fn chat_command_builtin_and_forwarded() {
    let mut server = offline_server();
    server.accept_client(0);
    admit_offline(&mut server, 0, "Alice", 1);

    let acts = server.handle_packet(
        0,
        ServerBoundPacket::ChatCommand(ChatMessage { message: "qc".to_owned(), timestamp: 0 }),
    );
    assert_eq!(acts.len(), 1);
    match &acts[0] {
        Action::Send { bytes, .. } => {
            assert_eq!(frame_packet_id(bytes), 0x60);
            let text = String::from_utf8(bytes[3..bytes.len() - 1].to_vec()).unwrap();
            assert!(text.contains("QuectoCraft version"));
        },
        other => panic!("expected the version reply, got {:?}", other),
    }

    let acts = server.handle_packet(
        0,
        ServerBoundPacket::ChatCommand(ChatMessage {
            message: "home set north wing".to_owned(),
            timestamp: 0,
        }),
    );
    assert_eq!(acts.len(), 1);
    match &acts[0] {
        Action::CommandEvent { player, command, args } => {
            assert_eq!(player.name, "Alice");
            assert_eq!(command, "home");
            assert_eq!(args, "set north wing");
        },
        other => panic!("expected a command event, got {:?}", other),
    }
}

#[test]
fn response_message_routes_by_name_then_first_match() {
    let mut server = offline_server();
    server.accept_client(0);
    server.accept_client(1);
    admit_offline(&mut server, 0, "Alice", 1);
    admit_offline(&mut server, 1, "Bob", 2);

    let acts = server.handle_plugin_response(Response::Message {
        player: "Bob".to_owned(),
        message: "{\"text\":\"psst\"}".to_owned(),
    });
    assert_eq!(acts.len(), 1);
    match &acts[0] {
        Action::Send { client, bytes } => {
            assert_eq!(*client, 1);
            assert_eq!(frame_packet_id(bytes), 0x60);
        },
        other => panic!("expected a send, got {:?}", other),
    }

    let acts = server.handle_plugin_response(Response::Message {
        player: "Nobody".to_owned(),
        message: "{}".to_owned(),
    });
    assert!(acts.is_empty());
}

#[test]
fn response_message_routes_by_identifier_text() {
    let mut server = offline_server();
    server.accept_client(0);
    let uuid = 0x123e4567e89b12d3a456426614174000u128;
    admit_offline(&mut server, 0, "Alice", uuid);
    let target = uuid::Uuid::from_u128(uuid).to_string();
    let acts = server.handle_plugin_response(Response::Message {
        player: target,
        message: "{}".to_owned(),
    });
    assert_eq!(acts.len(), 1);
}

#[test]
fn response_broadcast_reaches_every_player() {
    let mut server = offline_server();
    server.accept_client(0);
    server.accept_client(1);
    server.accept_client(2);
    admit_offline(&mut server, 0, "Alice", 1);
    admit_offline(&mut server, 2, "Bob", 2);
    let acts = server.handle_plugin_response(Response::Broadcast { message: "{}".to_owned() });
    assert_eq!(acts.len(), 2);
    match (&acts[0], &acts[1]) {
        (Action::Send { client: a, .. }, Action::Send { client: b, .. }) => {
            assert_eq!((*a, *b), (0, 2));
        },
        other => panic!("expected two sends, got {:?}", other),
    }
}

#[test]
fn response_disconnect_notifies_target() {
    let mut server = offline_server();
    server.accept_client(0);
    admit_offline(&mut server, 0, "Alice", 1);
    let acts = server.handle_plugin_response(Response::Disconnect {
        player: "Alice".to_owned(),
        reason: "{\"text\":\"bye\"}".to_owned(),
    });
    assert_eq!(acts.len(), 1);
    match &acts[0] {
        Action::Send { client, bytes } => {
            assert_eq!(*client, 0);
            assert_eq!(frame_packet_id(bytes), 0x17);
        },
        other => panic!("expected a send, got {:?}", other),
    }
}

#[test]
fn oversized_name_rejected_at_login() {
    let mut server = offline_server();
    server.accept_client(0);
    let long_name = "x".repeat(80);
    let acts = server.handle_packet(0, login_start(&long_name, 1));
    assert_eq!(acts.len(), 2);
    assert!(server.clients[0].player.is_none());
    assert!(server.clients[0].closed);
}

#[test]
fn server_new_refuses_bad_inputs() {
    let config = Config { login: LoginMode::Offline, velocity_secret: None };
    assert!(NetworkServer::new(config, Vec::new(), &Commands::new(), 0).is_none());
    let config = Config { login: LoginMode::Offline, velocity_secret: None };
    let big = vec![0u8; 0x100001];
    assert!(NetworkServer::new(config, big, &Commands::new(), 1024).is_none());
}

#[test]
fn invariant_checker_holds_across_a_session() {
    let mut server = offline_server();
    assert!(server.wf_check());
    server.accept_client(0);
    server.accept_client(1);
    admit_offline(&mut server, 0, "Alice", 1);
    admit_offline(&mut server, 1, "Bob", 2);
    server.connection_lost(0);
    server.remove_closed();
    assert_eq!(server.clients.len(), 1);
    assert!(server.wf_check());
    // a hand-altered value is caught
    server.clients[0].player = server.clients.first().and_then(|c| c.player.clone());
    if let Some(p) = &mut server.clients[0].player {
        p.name = "y".repeat(80);
    }
    if server.clients[0].player.is_some() {
        assert!(!server.wf_check());
    }
}
