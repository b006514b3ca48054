use quectocraft::data::{encode_varint, finalize_packet, read_varint, DecodeError, PacketDecoder, PacketEncoder};
use quectocraft::protocol::{pack_position, unpack_position, Position};

fn decoder_for(body: Vec<u8>) -> PacketDecoder {
    PacketDecoder::decode(body).expect("frame body should parse")
}

#[test]
fn varint_round_trip_samples() {
    for v in [0i32, 1, 127, 128, 255, 300, 25565, 2097151, i32::MAX, -1, i32::MIN, -12345] {
        let enc = encode_varint(v);
        assert!(enc.len() <= 5);
        let (decoded, used) = read_varint(&enc).expect("varint should decode");
        assert_eq!(decoded, v);
        assert_eq!(used, enc.len());
    }
}

#[test]
fn varint_known_encodings() {
    assert_eq!(encode_varint(0), vec![0x00]);
    assert_eq!(encode_varint(1), vec![0x01]);
    assert_eq!(encode_varint(128), vec![0x80, 0x01]);
    assert_eq!(encode_varint(255), vec![0xff, 0x01]);
    assert_eq!(encode_varint(25565), vec![0xdd, 0xc7, 0x01]);
    assert_eq!(encode_varint(-1), vec![0xff, 0xff, 0xff, 0xff, 0x0f]);
    assert_eq!(encode_varint(i32::MIN), vec![0x80, 0x80, 0x80, 0x80, 0x08]);
}

#[test]
fn varint_six_groups_rejected() {
    let data = vec![0x80u8, 0x80, 0x80, 0x80, 0x80, 0x01];
    assert_eq!(read_varint(&data), Err(DecodeError::VarnumTooLong));
}

#[test]
fn varint_truncated_rejected() {
    let data = vec![0x80u8, 0x80];
    assert_eq!(read_varint(&data), Err(DecodeError::UnexpectedEnd));
}

#[test]
fn varlong_round_trip_samples() {
    for v in [0i64, 1, -1, i64::MAX, i64::MIN, 1234567890123] {
        let mut enc = PacketEncoder::new();
        enc.write_varlong(v);
        let bytes = enc.to_data();
        assert!(bytes.len() <= 10);
        let mut body = encode_varint(0);
        body.extend(bytes);
        let mut dec = decoder_for(body);
        assert_eq!(dec.read_varlong(), Ok(v));
    }
}

#[test]
fn fixed_width_round_trips() {
    let mut enc = PacketEncoder::new();
    enc.write_bool(true);
    enc.write_byte(-7);
    enc.write_ubyte(200);
    enc.write_short(-12345);
    enc.write_ushort(54321);
    enc.write_int(-123456789);
    enc.write_long(-1234567890123456789);
    enc.write_uuid(0x0102030405060708090a0b0c0d0e0f10);
    let mut body = encode_varint(0);
    body.extend(enc.to_data());
    let mut dec = decoder_for(body);
    assert_eq!(dec.read_bool(), Ok(true));
    assert_eq!(dec.read_byte(), Ok(-7));
    assert_eq!(dec.read_ubyte(), Ok(200));
    assert_eq!(dec.read_short(), Ok(-12345));
    assert_eq!(dec.read_ushort(), Ok(54321));
    assert_eq!(dec.read_int(), Ok(-123456789));
    assert_eq!(dec.read_long(), Ok(-1234567890123456789));
    assert_eq!(dec.read_uuid(), Ok(0x0102030405060708090a0b0c0d0e0f10));
}

#[test]
fn big_endian_byte_order() {
    let mut enc = PacketEncoder::new();
    enc.write_int(0x01020304);
    assert_eq!(enc.to_data(), vec![1, 2, 3, 4]);
}

#[test]
fn string_round_trip_ascii_and_unicode() {
    for text in ["", "hello", "caf\u{e9} \u{1F600} na\u{ef}ve"] {
        let mut enc = PacketEncoder::new();
        enc.write_string(32767, text);
        let mut body = encode_varint(0);
        body.extend(enc.to_data());
        let mut dec = decoder_for(body);
        assert_eq!(dec.read_string(), Ok(text.to_owned()));
    }
}

#[test]
fn string_length_prefix_counts_bytes() {
    let mut enc = PacketEncoder::new();
    enc.write_string(32767, "\u{e9}");
    // two UTF-8 bytes, so the prefix must say 2
    assert_eq!(enc.to_data(), vec![2, 0xc3, 0xa9]);
}

#[test]
fn string_invalid_utf8_rejected() {
    let mut body = encode_varint(0);
    body.extend(vec![2u8, 0xff, 0xfe]);
    let mut dec = decoder_for(body);
    assert_eq!(dec.read_string(), Err(DecodeError::InvalidUtf8));
}

#[test]
fn string_negative_length_rejected() {
    let mut body = encode_varint(0);
    body.extend(encode_varint(-5));
    let mut dec = decoder_for(body);
    assert_eq!(dec.read_string(), Err(DecodeError::NegativeLength));
}

#[test]
fn string_short_buffer_rejected() {
    let mut body = encode_varint(0);
    body.extend(encode_varint(10));
    body.extend(vec![b'a', b'b']);
    let mut dec = decoder_for(body);
    assert_eq!(dec.read_string(), Err(DecodeError::UnexpectedEnd));
}

#[test]
fn short_reads_rejected() {
    let mut body = encode_varint(0);
    body.extend(vec![1u8, 2]);
    let mut dec = decoder_for(body);
    assert_eq!(dec.read_int(), Err(DecodeError::UnexpectedEnd));
}

#[test]
fn read_bytes_and_read_to_end() {
    let mut body = encode_varint(7);
    body.extend(vec![10u8, 20, 30, 40]);
    let mut dec = decoder_for(body);
    assert_eq!(dec.packet_id(), 7);
    assert_eq!(dec.read_bytes(2), Ok(vec![10, 20]));
    assert_eq!(dec.read_to_end(), vec![30, 40]);
}

#[test]
fn position_pack_layout() {
    // X in the top 26 bits, Z in the middle 26, Y in the low 12.
    let w = pack_position(Position { x: 1, y: 2, z: 3 });
    assert_eq!(w, (1u64 << 38) | (3u64 << 12) | 2);
}

#[test]
fn position_round_trip() {
    for (x, y, z) in [
        (0i32, 0i16, 0i32),
        (1, 2, 3),
        (-1, -1, -1),
        (0x1ffffff, 0x7ff, 0x1ffffff),
        (-0x2000000, -0x800, -0x2000000),
        (12550825, -200, -4467570),
    ] {
        let p = Position { x, y, z };
        let q = unpack_position(pack_position(p));
        assert_eq!((q.x, q.y, q.z), (x, y, z));
    }
}

#[test]
fn frame_layout_and_reparse() {
    let payload = vec![9u8, 8, 7];
    let frame = finalize_packet(payload.clone(), 0x24);
    // length varint counts the id varint plus the payload
    let (len, used) = read_varint(&frame).expect("length should parse");
    assert_eq!(used, 1);
    assert_eq!(len as usize, frame.len() - used);
    let body = frame[used..].to_vec();
    let mut dec = decoder_for(body);
    assert_eq!(dec.packet_id(), 0x24);
    assert_eq!(dec.read_to_end(), payload);
}

#[test]
fn frame_with_large_id_uses_varint() {
    let frame = finalize_packet(Vec::new(), 0x60);
    assert_eq!(frame, vec![1, 0x60]);
    let frame = finalize_packet(Vec::new(), 200);
    assert_eq!(frame, vec![2, 0xc8, 0x01]);
}
