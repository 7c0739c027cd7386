use overlay_node::codec::decode;
use overlay_node::codec::decode_payload;
use overlay_node::codec::encode;
use overlay_node::codec::encode_payload;
use overlay_node::codec::read_len_prefix;
use overlay_node::codec::CodecError;
use overlay_node::message::ConnectionInfo;
use overlay_node::message::Message;
use overlay_node::message::NetworkState;
use overlay_node::message::NewConnection;
use overlay_node::message::Text;
use overlay_node::peer::Info;
use overlay_node::peer::PeerAddress;

fn round_trip(m: Message) {
    let frame = encode(&m);
    assert_eq!(decode(&frame), Ok(m.clone()));
    let payload = encode_payload(&m);
    assert_eq!(decode_payload(&payload), Ok(m));
}

#[test]
fn round_trip_connection_info() {
    round_trip(Message::ConnectionInfo(ConnectionInfo { port: 9002 }));
    round_trip(Message::ConnectionInfo(ConnectionInfo { port: 0 }));
    round_trip(Message::ConnectionInfo(ConnectionInfo { port: u16::MAX }));
}

#[test]
fn round_trip_new_connection() {
    round_trip(Message::NewConnection(NewConnection {
        addr: PeerAddress { ip: 0xc0a80001, port: 9001 },
    }));
}

#[test]
fn round_trip_network_state() {
    round_trip(Message::NetworkState(NetworkState { peers: vec![] }));
    round_trip(Message::NetworkState(NetworkState {
        peers: vec![
            (PeerAddress { ip: 0x0a000001, port: 7001 }, Info { port: 8001 }),
            (PeerAddress { ip: 0x0a000002, port: 7002 }, Info { port: 8002 }),
            (PeerAddress { ip: u32::MAX, port: u16::MAX }, Info { port: 0 }),
        ],
    }));
}

#[test]
fn round_trip_text() {
    round_trip(Message::Text(Text { text: String::new() }));
    round_trip(Message::Text(Text { text: "hello world".to_string() }));
    // Multi-byte UTF-8 survives the trip too.
    round_trip(Message::Text(Text { text: "héllo ✓ übergoßen".to_string() }));
}

#[test]
fn connection_info_wire_image_is_fixed() {
    let m = Message::ConnectionInfo(ConnectionInfo { port: 0x1234 });
    assert_eq!(encode_payload(&m), vec![1, 0x12, 0x34]);
    assert_eq!(encode(&m), vec![0, 0, 0, 3, 1, 0x12, 0x34]);
}

#[test]
fn text_wire_image_is_fixed() {
    let m = Message::Text(Text { text: "hi".to_string() });
    assert_eq!(encode_payload(&m), vec![4, 0, 0, 0, 2, b'h', b'i']);
    assert_eq!(encode(&m), vec![0, 0, 0, 7, 4, 0, 0, 0, 2, b'h', b'i']);
}

#[test]
fn network_state_wire_image_is_fixed() {
    let m = Message::NetworkState(NetworkState {
        peers: vec![(PeerAddress { ip: 0x01020304, port: 0x0506 }, Info { port: 0x0708 })],
    });
    assert_eq!(encode_payload(&m), vec![3, 0, 0, 0, 1, 1, 2, 3, 4, 5, 6, 7, 8]);
}

#[test]
fn short_frame_is_frame_error() {
    assert_eq!(decode(&vec![]), Err(CodecError::FrameError));
    assert_eq!(decode(&vec![0, 0, 0]), Err(CodecError::FrameError));
}

#[test]
fn mismatched_prefix_is_frame_error() {
    // Prefix says five payload bytes; only three follow.
    assert_eq!(decode(&vec![0, 0, 0, 5, 1, 0, 80]), Err(CodecError::FrameError));
}

#[test]
fn unknown_tag_is_decode_error() {
    assert_eq!(decode(&vec![0, 0, 0, 1, 9]), Err(CodecError::DecodeError));
    assert_eq!(decode_payload(&vec![9]), Err(CodecError::DecodeError));
    assert_eq!(decode_payload(&vec![]), Err(CodecError::DecodeError));
}

#[test]
fn truncated_payload_is_decode_error() {
    // A handshake payload must be exactly three bytes.
    assert_eq!(decode_payload(&vec![1, 0x12]), Err(CodecError::DecodeError));
    assert_eq!(decode_payload(&vec![1, 0x12, 0x34, 0x56]), Err(CodecError::DecodeError));
    // A text payload whose count disagrees with the bytes present.
    assert_eq!(decode_payload(&vec![4, 0, 0, 0, 9, b'h', b'i']), Err(CodecError::DecodeError));
    // A network-state payload cut inside an entry.
    assert_eq!(decode_payload(&vec![3, 0, 0, 0, 1, 1, 2, 3]), Err(CodecError::DecodeError));
}

#[test]
fn invalid_utf8_is_decode_error() {
    assert_eq!(
        decode_payload(&vec![4, 0, 0, 0, 2, 0xff, 0xfe]),
        Err(CodecError::DecodeError)
    );
}

#[test]
fn len_prefix_reads_big_endian() {
    assert_eq!(read_len_prefix(&vec![0, 0, 0, 7, 99]), Ok(7));
    assert_eq!(read_len_prefix(&vec![1, 2, 3, 4]), Ok(0x01020304));
    assert_eq!(read_len_prefix(&vec![0, 0]), Err(CodecError::FrameError));
}

#[test]
fn random_text_is_thirty_alphanumerics() {
    let t = Text::with_random_text();
    assert_eq!(t.text.chars().count(), 30);
    assert!(t.text.chars().all(|c| c.is_ascii_alphanumeric()));
    // Two draws almost surely differ; equal draws would suggest the
    // generator hands back a constant.
    let u = Text::with_random_text();
    assert!(t.text != u.text || Text::with_random_text().text != t.text);
}
