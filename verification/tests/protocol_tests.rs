use mcscan::protocol::parse_legacy_response;
use mcscan::protocol::parse_status_response;
use mcscan::protocol::ipv4_literal_bytes;
use mcscan::protocol::Ipv4Address;
use mcscan::protocol::PingableServer;
use mcscan::protocol::SocketAddrV4;
use mcscan::protocol::StatusParse;
use mcscan::codec::write_varint;
use mcscan::response::Description;
use mcscan::utils::RunError;

fn addr(a: u8, b: u8, c: u8, d: u8) -> Ipv4Address {
    Ipv4Address { a, b, c, d }
}

#[test]
fn ipv4_bits_round_trip() {
    let ip = addr(192, 168, 1, 42);
    assert_eq!(ip.to_bits(), 0xC0A8012A);
    assert_eq!(Ipv4Address::from_bits(0xC0A8012A), ip);
    assert_eq!(Ipv4Address::from_bits(0), addr(0, 0, 0, 0));
    assert_eq!(Ipv4Address::from_bits(u32::MAX), addr(255, 255, 255, 255));
}

#[test]
fn ipv4_literal() {
    assert_eq!(ipv4_literal_bytes(&addr(127, 0, 0, 1)), b"127.0.0.1".to_vec());
    assert_eq!(ipv4_literal_bytes(&addr(255, 255, 255, 255)), b"255.255.255.255".to_vec());
    assert_eq!(ipv4_literal_bytes(&addr(0, 10, 100, 9)), b"0.10.100.9".to_vec());
}

#[test]
fn handshake_packet_bytes() {
    let server = PingableServer::new(SocketAddrV4 { ip: addr(127, 0, 0, 1), port: 25565 });
    let packet = server.handshake_packet();
    let expected: Vec<u8> = vec![
        15, // body length
        0x00, // packet id
        47, // protocol version
        9, b'1', b'2', b'7', b'.', b'0', b'.', b'0', b'.', b'1', // host
        0x63, 0xDD, // port 25565, big endian
        0x01, // next state: status
    ];
    assert_eq!(packet, expected);
}

#[test]
fn status_request_packet_bytes() {
    assert_eq!(PingableServer::status_request_packet(), vec![1, 0x00]);
}

fn frame_status_response(packet_id: i32, json: &[u8]) -> Vec<u8> {
    let mut body = Vec::new();
    write_varint(&mut body, packet_id);
    write_varint(&mut body, json.len() as i32);
    body.extend_from_slice(json);
    let mut out = Vec::new();
    write_varint(&mut out, body.len() as i32);
    out.extend_from_slice(&body);
    out
}

#[test]
fn status_response_happy_path() {
    let json = br#"{"version":{"name":"Paper 1.20.4","protocol":765},"players":{"max":20,"online":3,"sample":[]},"description":{"text":"Hi"}}"#;
    let buf = frame_status_response(0x00, json);
    match parse_status_response(&buf) {
        StatusParse::Complete { start, len } => {
            assert_eq!(&buf[start..start + len], json.as_slice());
        },
        other => panic!("expected a complete parse, got {:?}", other),
    }
}

#[test]
fn status_response_rejects_wrong_packet_id() {
    let buf = frame_status_response(0x01, br#"{}"#);
    assert_eq!(parse_status_response(&buf), StatusParse::Malformed);
}

#[test]
fn status_response_incomplete_prefixes() {
    let json = br#"{"description":{"text":"Hi"}}"#;
    let buf = frame_status_response(0x00, json);
    assert_eq!(parse_status_response(&[]), StatusParse::Incomplete);
    for cut in 1..buf.len() {
        assert_eq!(parse_status_response(&buf[..cut]), StatusParse::Incomplete);
    }
}

#[test]
fn status_response_rejects_oversized_declared_length() {
    let mut body = Vec::new();
    write_varint(&mut body, 0x00);
    write_varint(&mut body, 131073);
    let mut buf = Vec::new();
    write_varint(&mut buf, body.len() as i32);
    buf.extend_from_slice(&body);
    assert_eq!(parse_status_response(&buf), StatusParse::Malformed);
}

fn utf16_be(text: &str) -> Vec<u8> {
    let mut out = Vec::new();
    for unit in text.encode_utf16() {
        out.push((unit >> 8) as u8);
        out.push((unit & 0xFF) as u8);
    }
    out
}

fn legacy_response(text: &str) -> Vec<u8> {
    let units: Vec<u16> = text.encode_utf16().collect();
    let mut out = vec![0xFF, (units.len() >> 8) as u8, (units.len() & 0xFF) as u8];
    out.extend_from_slice(&utf16_be(text));
    out
}

#[test]
fn legacy_ping_16_format() {
    let buf = legacy_response("\u{a7}1\u{0}74\u{0}1.8\u{0}Hello\u{0}3\u{0}20");
    let server = parse_legacy_response(&buf).unwrap();
    assert_eq!(server.version.name, "1.8");
    assert_eq!(server.version.protocol, 74);
    assert_eq!(server.players.online, 3);
    assert_eq!(server.players.max, 20);
    assert_eq!(server.players.sample.as_ref().unwrap().len(), 0);
    match server.description_raw {
        Some(Description::Text(motd)) => assert_eq!(motd, "Hello"),
        other => panic!("expected a text description, got {:?}", other),
    }
}

#[test]
fn legacy_ping_pre_16_format() {
    let buf = legacy_response("MOTD\u{a7}5\u{a7}20");
    let server = parse_legacy_response(&buf).unwrap();
    assert_eq!(server.version.name, "Legacy < 1.6");
    assert_eq!(server.version.protocol, 0);
    assert_eq!(server.players.online, 5);
    assert_eq!(server.players.max, 20);
    match server.description_raw {
        Some(Description::Text(motd)) => assert_eq!(motd, "MOTD"),
        other => panic!("expected a text description, got {:?}", other),
    }
}

#[test]
fn legacy_ping_unparsable_numbers_count_as_zero() {
    let buf = legacy_response("MOTD\u{a7}five\u{a7}20");
    let server = parse_legacy_response(&buf).unwrap();
    assert_eq!(server.players.online, 0);
    assert_eq!(server.players.max, 20);
}

#[test]
fn legacy_ping_rejects_deviations() {
    // Wrong packet id.
    let mut buf = legacy_response("MOTD\u{a7}5\u{a7}20");
    buf[0] = 0xFE;
    assert_eq!(parse_legacy_response(&buf).unwrap_err(), RunError::MalformedResponse);
    // Too short.
    assert_eq!(parse_legacy_response(&[0xFF, 0x00]).unwrap_err(), RunError::MalformedResponse);
    // Length field does not match the data.
    assert_eq!(
        parse_legacy_response(&[0xFF, 0x00, 0x05, 0x00, b'a']).unwrap_err(),
        RunError::MalformedResponse
    );
    // A lone surrogate is not valid UTF-16.
    assert_eq!(
        parse_legacy_response(&[0xFF, 0x00, 0x01, 0xD8, 0x00]).unwrap_err(),
        RunError::MalformedResponse
    );
    // The 1.6 format must hold exactly six fields.
    let seven = legacy_response("\u{a7}1\u{0}74\u{0}1.8\u{0}Hello\u{0}3\u{0}20\u{0}x");
    assert_eq!(parse_legacy_response(&seven).unwrap_err(), RunError::MalformedResponse);
    // The older format must hold exactly three fields.
    let two = legacy_response("MOTD\u{a7}5");
    assert_eq!(parse_legacy_response(&two).unwrap_err(), RunError::MalformedResponse);
}
