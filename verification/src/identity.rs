//! Peer identity: a fixed-size public-key value with a canonical lowercase
//! hex string form. Equality is defined over the raw key bytes alone.

use vstd::prelude::*;

verus! {

/// Length in bytes of a peer's public-key value.
pub const KEY_LEN: usize = 32;

/// The hex digit for a nibble value, lowercase.
pub open spec fn hex_digit(v: u8) -> char {
    if v == 0 {
        '0'
    } else if v == 1 {
        '1'
    } else if v == 2 {
        '2'
    } else if v == 3 {
        '3'
    } else if v == 4 {
        '4'
    } else if v == 5 {
        '5'
    } else if v == 6 {
        '6'
    } else if v == 7 {
        '7'
    } else if v == 8 {
        '8'
    } else if v == 9 {
        '9'
    } else if v == 10 {
        'a'
    } else if v == 11 {
        'b'
    } else if v == 12 {
        'c'
    } else if v == 13 {
        'd'
    } else if v == 14 {
        'e'
    } else {
        'f'
    }
}

/// Whether a character is a hex digit, in either case.
pub open spec fn is_hex_char(c: char) -> bool {
    c == '0' || c == '1' || c == '2' || c == '3' || c == '4' || c == '5' || c == '6' || c == '7'
        || c == '8' || c == '9' || c == 'a' || c == 'b' || c == 'c' || c == 'd' || c == 'e'
        || c == 'f' || c == 'A' || c == 'B' || c == 'C' || c == 'D' || c == 'E' || c == 'F'
}

/// The nibble value of a hex digit, in either case.
pub open spec fn hex_val(c: char) -> u8 {
    if c == '0' {
        0
    } else if c == '1' {
        1
    } else if c == '2' {
        2
    } else if c == '3' {
        3
    } else if c == '4' {
        4
    } else if c == '5' {
        5
    } else if c == '6' {
        6
    } else if c == '7' {
        7
    } else if c == '8' {
        8
    } else if c == '9' {
        9
    } else if c == 'a' || c == 'A' {
        10
    } else if c == 'b' || c == 'B' {
        11
    } else if c == 'c' || c == 'C' {
        12
    } else if c == 'd' || c == 'D' {
        13
    } else if c == 'e' || c == 'E' {
        14
    } else {
        15
    }
}

/// The lowercase hex encoding of a byte sequence: two digits per byte,
/// high nibble first.
pub open spec fn hex_of(b: Seq<u8>) -> Seq<char> {
    Seq::new(
        b.len() * 2,
        |i: int|
            if i % 2 == 0 {
                hex_digit(b[i / 2] / 16)
            } else {
                hex_digit(b[i / 2] % 16)
            },
    )
}

/// Whether a string is a well-formed hex encoding: even length, every
/// character a hex digit of either case.
pub open spec fn valid_hex(s: Seq<char>) -> bool {
    s.len() % 2 == 0 && forall|i: int| 0 <= i < s.len() ==> is_hex_char(#[trigger] s[i])
}

/// The bytes denoted by a well-formed hex string.
pub open spec fn bytes_of_hex(s: Seq<char>) -> Seq<u8> {
    Seq::new(s.len() / 2, |i: int| (hex_val(s[2 * i]) * 16 + hex_val(s[2 * i + 1])) as u8)
}

/// Relies on hex::encode: returns the lowercase hex encoding of the bytes,
/// two digits per byte, high nibble first.
#[verifier::external_body]
fn hex_encode_bytes(b: &Vec<u8>) -> (r: String)
    ensures
        r@ == hex_of(b@),
{
    hex::encode(b.as_slice())
}

/// Relies on hex::decode: succeeds exactly on even-length strings of hex
/// digits (either case) and returns the denoted bytes.
#[verifier::external_body]
fn hex_decode_str(s: &str) -> (r: Option<Vec<u8>>)
    ensures
        r is Some <==> valid_hex(s@),
        r matches Some(v) ==> v@ == bytes_of_hex(s@),
{
    hex::decode(s).ok()
}

/// Byte-wise equality of two byte vectors.
fn bytes_eq(a: &Vec<u8>, b: &Vec<u8>) -> (r: bool)
    ensures
        r == (a@ == b@),
{
    if a.len() != b.len() {
        return false;
    }
    let mut i: usize = 0;
    while i < a.len()
        invariant
            i <= a@.len(),
            a@.len() == b@.len(),
            forall|j: int| 0 <= j < i ==> a@[j] == b@[j],
        decreases a@.len() - i,
    {
        if a[i] != b[i] {
            return false;
        }
        i += 1;
    }
    proof {
        assert(a@ =~= b@);
    }
    true
}

/// A fresh copy of a byte vector.
fn copy_bytes(a: &Vec<u8>) -> (r: Vec<u8>)
    ensures
        r@ == a@,
{
    let mut r: Vec<u8> = Vec::new();
    let mut i: usize = 0;
    while i < a.len()
        invariant
            i <= a@.len(),
            r@ == a@.subrange(0, i as int),
        decreases a@.len() - i,
    {
        r.push(a[i]);
        i += 1;
        proof {
            assert(r@ =~= a@.subrange(0, i as int));
        }
    }
    proof {
        assert(r@ =~= a@);
    }
    r
}

/// Identifier of a peer: an opaque wrapper around the raw public-key bytes.
#[derive(Debug, Eq, Hash)]
pub struct PeerID {
    key: Vec<u8>,
}

impl View for PeerID {
    type V = Seq<u8>;

    closed spec fn view(&self) -> Seq<u8> {
        self.key@
    }
}

impl PeerID {
    /// A well-formed identifier holds exactly the expected number of key bytes.
    pub open spec fn wf(&self) -> bool {
        self@.len() == KEY_LEN
    }

    /// Wraps a validated key value, as produced by the transport handshake.
    /// Returns nothing when the byte count is not that of a key.
    pub fn from_key_bytes(key: Vec<u8>) -> (r: Option<PeerID>)
        ensures
            r is Some <==> key@.len() == KEY_LEN,
            r matches Some(id) ==> id@ == key@ && id.wf(),
    {
        if key.len() == KEY_LEN {
            Some(PeerID { key })
        } else {
            None
        }
    }

    /// The raw key bytes of this identifier.
    pub fn key_bytes(&self) -> (r: &Vec<u8>)
        ensures
            r@ == self@,
    {
        &self.key
    }

    /// The canonical string form: the lowercase hex encoding of the key bytes.
    pub fn to_string(&self) -> (r: String)
        ensures
            r@ == hex_of(self@),
    {
        hex_encode_bytes(&self.key)
    }

    /// Decodes an identifier from its string form. Returns nothing — not an
    /// error — when the input is not hex or does not denote exactly the
    /// expected number of key bytes.
    pub fn from_string(s: &str) -> (r: Option<PeerID>)
        ensures
            r is Some <==> valid_hex(s@) && s@.len() == 2 * KEY_LEN,
            r matches Some(id) ==> id@ == bytes_of_hex(s@) && id.wf(),
    {
        match hex_decode_str(s) {
            None => None,
            Some(v) => {
                if v.len() == KEY_LEN {
                    proof {
                        assert(s@.len() == 2 * KEY_LEN);
                    }
                    Some(PeerID { key: v })
                } else {
                    None
                }
            },
        }
    }
}

impl Clone for PeerID {
    /// A clone carries the same key bytes.
    fn clone(&self) -> (r: Self)
        ensures
            r@ == self@,
    {
        PeerID { key: copy_bytes(&self.key) }
    }
}

impl PartialEq for PeerID {
    fn eq(&self, other: &PeerID) -> (r: bool) {
        bytes_eq(&self.key, &other.key)
    }
}

impl vstd::std_specs::cmp::PartialEqSpecImpl for PeerID {
    open spec fn obeys_eq_spec() -> bool {
        true
    }

    open spec fn eq_spec(&self, other: &PeerID) -> bool {
        self@ == other@
    }
}

/// Law: an identifier survives the round trip through its hex string form,
/// and the string form is a well-formed hex string of twice the key length.
/// Together with the contracts of `to_string` and `from_string` this says
/// `from_string(to_string(k))` recovers `k`, while strings of the wrong
/// length or with non-hex characters decode to nothing.
pub proof fn lemma_identity_round_trip(key: Seq<u8>)
    ensures
        hex_of(key).len() == 2 * key.len(),
        valid_hex(hex_of(key)),
        bytes_of_hex(hex_of(key)) == key,
{
    assert forall|i: int| 0 <= i < hex_of(key).len() implies is_hex_char(#[trigger] hex_of(key)[i]) by {
        if i % 2 == 0 {
            assert(key[i / 2] / 16 < 16);
        } else {
            assert(key[i / 2] % 16 < 16);
        }
    }
    assert forall|i: int| 0 <= i < key.len() implies bytes_of_hex(hex_of(key))[i] == key[i] by {
        let s = hex_of(key);
        assert(s[2 * i] == hex_digit(key[i] / 16));
        assert(s[2 * i + 1] == hex_digit(key[i] % 16));
        assert(hex_val(hex_digit(key[i] / 16)) == key[i] / 16);
        assert(hex_val(hex_digit(key[i] % 16)) == key[i] % 16);
        assert(key[i] / 16 * 16 + key[i] % 16 == key[i]) by {
            vstd::arithmetic::div_mod::lemma_fundamental_div_mod(key[i] as int, 16);
        }
    }
    assert(bytes_of_hex(hex_of(key)) =~= key);
}

} // verus!
