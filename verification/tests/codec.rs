use peerlink::message::decode_message;
use peerlink::message::encode_message;
use peerlink::NetAddr;
use peerlink::PeerAddr;
use peerlink::PeerID;
use peerlink::PeerMessage;

fn id(fill: u8) -> PeerID {
    PeerID::from_key_bytes(vec![fill; 32]).unwrap()
}

fn v4(a: u8, b: u8, c: u8, d: u8, port: u16) -> NetAddr {
    NetAddr::new(vec![a, b, c, d], port).unwrap()
}

fn round_trip(m: &PeerMessage) -> PeerMessage {
    let bytes = encode_message(m);
    decode_message(&bytes).expect("an encoded message must decode")
}

#[test]
fn hello_round_trips_port_bounds() {
    for port in [0u16, 1, 4040, 65535] {
        let m = PeerMessage::Hello(port);
        assert_eq!(round_trip(&m), m);
    }
}

#[test]
fn hello_wire_bytes_are_tag_then_port_little_endian() {
    let bytes = encode_message(&PeerMessage::Hello(4040));
    assert_eq!(bytes, vec![0u8, 0xc8, 0x0f]);
}

#[test]
fn data_round_trips_empty_and_long_text() {
    let empty = PeerMessage::Data(String::new());
    assert_eq!(round_trip(&empty), empty);
    let long = PeerMessage::Data("x".repeat(100_000));
    assert_eq!(round_trip(&long), long);
    let accents = PeerMessage::Data(String::from("ol\u{e9} \u{1f600}"));
    assert_eq!(round_trip(&accents), accents);
}

#[test]
fn data_wire_bytes_are_tag_length_then_utf8() {
    let bytes = encode_message(&PeerMessage::Data(String::from("ab")));
    assert_eq!(bytes, vec![1u8, 2, 0, 0, 0, 0, 0, 0, 0, 0x61, 0x62]);
}

#[test]
fn peers_round_trips_empty_list() {
    let m = PeerMessage::Peers(vec![]);
    assert_eq!(round_trip(&m), m);
}

#[test]
fn peers_round_trips_duplicates_and_v6() {
    let dup = PeerAddr { id: id(7), addr: v4(127, 0, 0, 1, 4040) };
    let v6 = PeerAddr {
        id: id(7),
        addr: NetAddr::new(vec![0u8; 16], 443).unwrap(),
    };
    let m = PeerMessage::Peers(vec![dup.clone(), dup, v6]);
    assert_eq!(round_trip(&m), m);
}

#[test]
fn peers_wire_layout_is_count_then_records() {
    let m = PeerMessage::Peers(vec![PeerAddr { id: id(9), addr: v4(10, 0, 0, 2, 258) }]);
    let bytes = encode_message(&m);
    assert_eq!(bytes.len(), 1 + 8 + 32 + 1 + 4 + 2);
    assert_eq!(bytes[0], 2);
    assert_eq!(&bytes[1..9], &[1, 0, 0, 0, 0, 0, 0, 0]);
    assert_eq!(&bytes[9..41], &[9u8; 32][..]);
    assert_eq!(bytes[41], 4);
    assert_eq!(&bytes[42..46], &[10, 0, 0, 2]);
    assert_eq!(&bytes[46..48], &[2, 1]);
}

#[test]
fn decode_rejects_empty_and_unknown_tag() {
    assert_eq!(decode_message(&vec![]), None);
    assert_eq!(decode_message(&vec![3u8, 0, 0]), None);
    assert_eq!(decode_message(&vec![0xffu8]), None);
}

#[test]
fn decode_rejects_wrong_sizes() {
    // Hello with a missing or an extra byte.
    assert_eq!(decode_message(&vec![0u8, 1]), None);
    assert_eq!(decode_message(&vec![0u8, 1, 2, 3]), None);
    // Data whose length prefix disagrees with the payload.
    assert_eq!(decode_message(&vec![1u8, 1, 0, 0, 0, 0, 0, 0, 0]), None);
    assert_eq!(decode_message(&vec![1u8, 0, 0, 0, 0, 0, 0, 0, 0, 0x61]), None);
    // A peers frame with trailing bytes.
    let mut bytes = encode_message(&PeerMessage::Peers(vec![]));
    bytes.push(0);
    assert_eq!(decode_message(&bytes), None);
}

#[test]
fn decode_rejects_bad_octet_count_and_short_record() {
    let good = encode_message(&PeerMessage::Peers(vec![PeerAddr {
        id: id(1),
        addr: v4(1, 2, 3, 4, 5),
    }]));
    let mut bad = good.clone();
    bad[41] = 5; // neither a v4 nor a v6 octet count
    assert_eq!(decode_message(&bad), None);
    let mut short = good;
    short.truncate(40);
    assert_eq!(decode_message(&short), None);
}

#[test]
fn decode_rejects_invalid_utf8() {
    let bytes = vec![1u8, 2, 0, 0, 0, 0, 0, 0, 0, 0xff, 0xfe];
    assert_eq!(decode_message(&bytes), None);
}

#[test]
fn encoding_is_deterministic() {
    let m = PeerMessage::Peers(vec![PeerAddr { id: id(3), addr: v4(8, 8, 8, 8, 53) }]);
    assert_eq!(encode_message(&m), encode_message(&m));
}
