use mcscan::codec::decode_string;
use mcscan::codec::decode_varint;
use mcscan::codec::read_varint;
use mcscan::codec::write_packet;
use mcscan::codec::write_string;
use mcscan::codec::write_varint;
use mcscan::utils::RunError;

fn encoded(value: i32) -> Vec<u8> {
    let mut buf = Vec::new();
    write_varint(&mut buf, value);
    buf
}

#[test]
fn varint_known_encodings() {
    assert_eq!(encoded(0), vec![0x00]);
    assert_eq!(encoded(1), vec![0x01]);
    assert_eq!(encoded(127), vec![0x7F]);
    assert_eq!(encoded(128), vec![0x80, 0x01]);
    assert_eq!(encoded(300), vec![0xAC, 0x02]);
    assert_eq!(encoded(25565), vec![0xDD, 0xC7, 0x01]);
    assert_eq!(encoded(2147483647), vec![0xFF, 0xFF, 0xFF, 0xFF, 0x07]);
    assert_eq!(encoded(-1), vec![0xFF, 0xFF, 0xFF, 0xFF, 0x0F]);
}

#[test]
fn varint_round_trip_many_values() {
    let samples: Vec<i32> = vec![
        0,
        1,
        2,
        127,
        128,
        255,
        300,
        16383,
        16384,
        25565,
        2097151,
        2097152,
        2147483647,
        -1,
        -2147483648,
    ];
    for x in samples {
        let buf = encoded(x);
        assert!(buf.len() <= 5);
        let (value, count) = decode_varint(&buf);
        assert_eq!(count as usize, buf.len());
        assert_eq!(value as u32 as i32, x);
    }
}

#[test]
fn varint_decode_with_trailing_bytes() {
    let mut buf = encoded(300);
    buf.push(0xAA);
    buf.push(0xBB);
    let (value, count) = decode_varint(&buf);
    assert_eq!((value, count), (300, 2));
    let read = read_varint(&buf, 0).unwrap();
    assert_eq!(read, (300, 2));
}

#[test]
fn varint_decode_of_short_data() {
    assert_eq!(decode_varint(&[]), (0, 0));
    assert_eq!(decode_varint(&[0x80]), (0, 1));
    assert_eq!(decode_varint(&[0x80, 0x80]), (0, 2));
}

#[test]
fn varint_read_rejects_overlong_and_truncated() {
    assert_eq!(
        read_varint(&[0x80, 0x80, 0x80, 0x80, 0x80, 0x01], 0),
        Err(RunError::MalformedResponse)
    );
    assert_eq!(read_varint(&[0x80, 0x80], 0), Err(RunError::MalformedResponse));
    assert_eq!(read_varint(&[], 0), Err(RunError::MalformedResponse));
}

#[test]
fn string_round_trip() {
    let mut buf = Vec::new();
    write_string(&mut buf, "hello");
    assert_eq!(buf, vec![5, b'h', b'e', b'l', b'l', b'o']);
    let (text, next) = decode_string(&buf, 0).unwrap();
    assert_eq!(text, "hello");
    assert_eq!(next, buf.len());
}

#[test]
fn string_round_trip_empty_and_unicode() {
    let mut buf = Vec::new();
    write_string(&mut buf, "");
    assert_eq!(buf, vec![0]);
    let (text, next) = decode_string(&buf, 0).unwrap();
    assert_eq!(text, "");
    assert_eq!(next, 1);

    let mut buf2 = Vec::new();
    write_string(&mut buf2, "héllo §b");
    let (text2, next2) = decode_string(&buf2, 0).unwrap();
    assert_eq!(text2, "héllo §b");
    assert_eq!(next2, buf2.len());
}

#[test]
fn string_decode_at_offset_with_trailing_data() {
    let mut buf = vec![0xFF, 0xFF];
    write_string(&mut buf, "ab");
    buf.push(0x99);
    let (text, next) = decode_string(&buf, 2).unwrap();
    assert_eq!(text, "ab");
    assert_eq!(next, buf.len() - 1);
}

#[test]
fn string_decode_rejects_bad_frames() {
    // Declared length runs past the data that actually arrived.
    assert_eq!(decode_string(&[5, b'a', b'b'], 0), Err(RunError::MalformedResponse));
    // Declared length exceeds the protocol cap of 32767 bytes.
    let mut long = Vec::new();
    write_varint(&mut long, 32768);
    long.resize(long.len() + 40000, b'x');
    assert_eq!(decode_string(&long, 0), Err(RunError::MalformedResponse));
    // Payload is not UTF-8.
    assert_eq!(decode_string(&[2, 0xFF, 0xFE], 0), Err(RunError::MalformedResponse));
    // Length prefix itself is broken.
    assert_eq!(decode_string(&[0x80], 0), Err(RunError::MalformedResponse));
}

#[test]
fn string_round_trip_at_cap() {
    let body = "x".repeat(32767);
    let mut buf = Vec::new();
    write_string(&mut buf, &body);
    let (text, next) = decode_string(&buf, 0).unwrap();
    assert_eq!(text, body);
    assert_eq!(next, buf.len());
}

#[test]
fn packet_framing() {
    let mut buf = Vec::new();
    write_packet(&mut buf, &[0x00, 0x2F, 0x01]);
    assert_eq!(buf, vec![3, 0x00, 0x2F, 0x01]);
}
