use peerlink::identity::KEY_LEN;
use peerlink::PeerID;

fn key(fill: u8) -> Vec<u8> {
    vec![fill; KEY_LEN]
}

#[test]
fn identity_round_trips_through_hex() {
    let mut bytes = Vec::new();
    for i in 0..KEY_LEN {
        bytes.push(i as u8);
    }
    let id = PeerID::from_key_bytes(bytes.clone()).unwrap();
    let s = id.to_string();
    let back = PeerID::from_string(&s).expect("canonical form must decode");
    assert_eq!(back, id);
    assert_eq!(back.key_bytes(), &bytes);
}

#[test]
fn to_string_is_lowercase_hex_high_nibble_first() {
    let mut bytes = key(0);
    bytes[0] = 0x01;
    bytes[1] = 0xab;
    bytes[31] = 0xf0;
    let id = PeerID::from_key_bytes(bytes).unwrap();
    let s = id.to_string();
    assert_eq!(s.len(), 64);
    assert!(s.starts_with("01ab"));
    assert!(s.ends_with("f0"));
    assert_eq!(&s[4..62], "0000000000000000000000000000000000000000000000000000000000");
}

#[test]
fn from_string_accepts_uppercase() {
    let id = PeerID::from_key_bytes(key(0xab)).unwrap();
    let upper = id.to_string().to_uppercase();
    assert_eq!(PeerID::from_string(&upper), Some(id));
}

#[test]
fn from_string_rejects_wrong_length() {
    assert_eq!(PeerID::from_string(""), None);
    assert_eq!(PeerID::from_string("00"), None);
    // 63 characters: odd length.
    let s63 = "0".repeat(63);
    assert_eq!(PeerID::from_string(&s63), None);
    // 66 characters: one byte too many.
    let s66 = "0".repeat(66);
    assert_eq!(PeerID::from_string(&s66), None);
}

#[test]
fn from_string_rejects_non_hex() {
    let mut s = "0".repeat(63);
    s.push('g');
    assert_eq!(PeerID::from_string(&s), None);
    let mut t = "0".repeat(63);
    t.push(' ');
    assert_eq!(PeerID::from_string(&t), None);
}

#[test]
fn from_key_bytes_rejects_wrong_sizes() {
    assert!(PeerID::from_key_bytes(vec![]).is_none());
    assert!(PeerID::from_key_bytes(vec![0u8; 31]).is_none());
    assert!(PeerID::from_key_bytes(vec![0u8; 33]).is_none());
    assert!(PeerID::from_key_bytes(vec![0u8; 32]).is_some());
}

#[test]
fn equality_is_over_key_bytes() {
    let a = PeerID::from_key_bytes(key(1)).unwrap();
    let b = PeerID::from_key_bytes(key(1)).unwrap();
    let c = PeerID::from_key_bytes(key(2)).unwrap();
    assert_eq!(a, b);
    assert_ne!(a, c);
    assert_eq!(a.clone(), b);
}
