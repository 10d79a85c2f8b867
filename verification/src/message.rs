//! Peer protocol messages and their binary wire form.
//!
//! The wire form is a compact, self-describing encoding: one discriminant
//! tag byte, then the variant payload, with no padding. Integers are
//! little-endian; text is carried as its UTF-8 bytes behind a 64-bit length;
//! an address list is carried as a 64-bit count of fixed-layout records.
//! Encoding is deterministic and decoding accepts exactly the encodings.

use vstd::prelude::*;

use crate::identity::KEY_LEN;
use crate::identity::PeerID;

verus! {

/// Wire tag of the liveness announcement.
pub const TAG_HELLO: u8 = 0;

/// Wire tag of the opaque text payload.
pub const TAG_DATA: u8 = 1;

/// Wire tag of the peer-address gossip list.
pub const TAG_PEERS: u8 = 2;

/// A network endpoint: the octets of an IP address (four for v4, sixteen
/// for v6) and a port. The octets stay private so that every endpoint that
/// can be built is structurally valid.
#[derive(Clone, Debug, PartialEq)]
pub struct NetAddr {
    octets: Vec<u8>,
    pub port: u16,
}

/// A peer's identity paired with an endpoint it can be dialed at. Used as
/// gossip payload inside the address-list message.
#[derive(Clone, Debug, PartialEq)]
pub struct PeerAddr {
    pub id: PeerID,
    pub addr: NetAddr,
}

/// The messages that peers exchange once the secure channel stands: a
/// liveness announcement carrying a dial-back port, an opaque text payload,
/// and a list of known peer addresses.
#[derive(Clone, Debug, PartialEq)]
pub enum PeerMessage {
    Hello(u16),
    Data(String),
    Peers(Vec<PeerAddr>),
}

/// Mathematical model of an endpoint.
pub ghost struct NetAddrV {
    pub octets: Seq<u8>,
    pub port: u16,
}

/// Mathematical model of an address record.
pub ghost struct PeerAddrV {
    pub id: Seq<u8>,
    pub addr: NetAddrV,
}

/// Mathematical model of a message as it stands on the wire: text is seen
/// as its UTF-8 bytes.
pub ghost enum WireV {
    Hello(u16),
    Data(Seq<u8>),
    Peers(Seq<PeerAddrV>),
}

impl View for NetAddr {
    type V = NetAddrV;

    closed spec fn view(&self) -> NetAddrV {
        NetAddrV { octets: self.octets@, port: self.port }
    }
}

impl View for PeerAddr {
    type V = PeerAddrV;

    open spec fn view(&self) -> PeerAddrV {
        PeerAddrV { id: self.id@, addr: self.addr@ }
    }
}

impl NetAddr {
    /// An endpoint is well formed when its octets are those of a v4 or a v6
    /// address.
    pub open spec fn wf(&self) -> bool {
        self@.octets.len() == 4 || self@.octets.len() == 16
    }

    /// Builds an endpoint; returns nothing when the octet count is neither
    /// that of a v4 nor that of a v6 address.
    pub fn new(octets: Vec<u8>, port: u16) -> (r: Option<NetAddr>)
        ensures
            r is Some <==> (octets@.len() == 4 || octets@.len() == 16),
            r matches Some(a) ==> a@.octets == octets@ && a@.port == port && a.wf(),
    {
        if octets.len() == 4 || octets.len() == 16 {
            Some(NetAddr { octets, port })
        } else {
            None
        }
    }

    /// The octets of the IP address: four for v4, sixteen for v6.
    pub fn octets(&self) -> (r: &Vec<u8>)
        ensures
            r@ == self@.octets,
    {
        &self.octets
    }
}

/// Well-formedness of an address record model: the identity holds exactly
/// the key bytes, the endpoint is v4 or v6.
pub open spec fn addr_wf(a: PeerAddrV) -> bool {
    a.id.len() == KEY_LEN && (a.addr.octets.len() == 4 || a.addr.octets.len() == 16)
}

impl PeerAddr {
    /// An address record is well formed when its model is.
    pub open spec fn wf(&self) -> bool {
        addr_wf(self@)
    }
}

/// The views of the records of an address list.
pub open spec fn addrs_view(v: Seq<PeerAddr>) -> Seq<PeerAddrV> {
    v.map_values(|a: PeerAddr| a@)
}

/// A message is well formed when every address record in it is.
pub open spec fn msg_wf(m: PeerMessage) -> bool {
    match m {
        PeerMessage::Peers(v) => forall|i: int| 0 <= i < v@.len() ==> (#[trigger] v@[i]).wf(),
        _ => true,
    }
}

/// The UTF-8 bytes of a text, a function of its characters alone.
pub uninterp spec fn utf8_of(s: Seq<char>) -> Seq<u8>;

/// Relies on str::as_bytes: returns the UTF-8 encoding of the text, which
/// depends on the characters alone; its length is that of a vector.
#[verifier::external_body]
fn text_to_bytes(s: &String) -> (r: Vec<u8>)
    ensures
        r@ == utf8_of(s@),
        r@.len() <= u64::MAX,
{
    s.as_bytes().to_vec()
}

/// Relies on String::from_utf8: succeeds exactly on valid UTF-8 and inverts
/// the UTF-8 encoding, which maps distinct texts to distinct byte strings.
#[verifier::external_body]
fn bytes_to_text(b: Vec<u8>) -> (r: Option<String>)
    ensures
        r matches Some(t) ==> utf8_of(t@) == b@,
        r matches Some(t) ==> forall|s: Seq<char>| b@ == utf8_of(s) ==> t@ == s,
        r is None ==> forall|s: Seq<char>| b@ != utf8_of(s),
{
    String::from_utf8(b).ok()
}

/// The two little-endian bytes of a 16-bit integer.
pub open spec fn enc_u16(x: u16) -> Seq<u8> {
    seq![(x & 0xff) as u8, ((x >> 8) & 0xff) as u8]
}

/// The eight little-endian bytes of a 64-bit integer.
pub open spec fn enc_u64(x: u64) -> Seq<u8> {
    seq![
        (x & 0xff) as u8,
        ((x >> 8) & 0xff) as u8,
        ((x >> 16) & 0xff) as u8,
        ((x >> 24) & 0xff) as u8,
        ((x >> 32) & 0xff) as u8,
        ((x >> 40) & 0xff) as u8,
        ((x >> 48) & 0xff) as u8,
        ((x >> 56) & 0xff) as u8,
    ]
}

/// The 16-bit integer read little-endian at a position.
pub open spec fn dec_u16_at(b: Seq<u8>, pos: int) -> u16 {
    (b[pos] as u16) | ((b[pos + 1] as u16) << 8)
}

/// The 64-bit integer read little-endian at a position.
pub open spec fn dec_u64_at(b: Seq<u8>, pos: int) -> u64 {
    (b[pos] as u64) | ((b[pos + 1] as u64) << 8) | ((b[pos + 2] as u64) << 16) | ((b[pos
        + 3] as u64) << 24) | ((b[pos + 4] as u64) << 32) | ((b[pos + 5] as u64) << 40) | ((b[pos
        + 6] as u64) << 48) | ((b[pos + 7] as u64) << 56)
}

/// The wire bytes of one address record: key bytes, an octet-count byte,
/// the octets, the port.
pub open spec fn enc_addr(a: PeerAddrV) -> Seq<u8> {
    a.id + seq![a.addr.octets.len() as u8] + a.addr.octets + enc_u16(a.addr.port)
}

/// The wire bytes of an address list, record after record.
pub open spec fn enc_addrs(l: Seq<PeerAddrV>) -> Seq<u8>
    decreases l.len(),
{
    if l.len() == 0 {
        Seq::<u8>::empty()
    } else {
        enc_addr(l[0]) + enc_addrs(l.drop_first())
    }
}

/// The wire bytes of a message: the discriminant tag, then the payload.
pub open spec fn enc_wire(w: WireV) -> Seq<u8> {
    match w {
        WireV::Hello(p) => seq![TAG_HELLO] + enc_u16(p),
        WireV::Data(d) => seq![TAG_DATA] + enc_u64(d.len() as u64) + d,
        WireV::Peers(l) => seq![TAG_PEERS] + enc_u64(l.len() as u64) + enc_addrs(l),
    }
}

/// A wire model the encoding is faithful for: lengths fit their 64-bit
/// prefixes and every address record is well formed.
pub open spec fn wire_wf(w: WireV) -> bool {
    match w {
        WireV::Hello(_) => true,
        WireV::Data(d) => d.len() <= u64::MAX,
        WireV::Peers(l) => l.len() <= u64::MAX && forall|i: int|
            0 <= i < l.len() ==> addr_wf(#[trigger] l[i]),
    }
}

/// The wire model of a message: text turns into its UTF-8 bytes.
pub open spec fn wire_of(m: PeerMessage) -> WireV {
    match m {
        PeerMessage::Hello(p) => WireV::Hello(p),
        PeerMessage::Data(s) => WireV::Data(utf8_of(s@)),
        PeerMessage::Peers(v) => WireV::Peers(addrs_view(v@)),
    }
}

/// Decodes one address record at a position: the key bytes, the
/// octet-count byte (which must be 4 or 16), the octets, the port. Returns
/// the record and the position after it.
pub open spec fn dec_addr(b: Seq<u8>, pos: int) -> Option<(PeerAddrV, int)> {
    if 0 <= pos && pos + 33 <= b.len() {
        let n = b[pos + 32] as int;
        if (n == 4 || n == 16) && pos + 35 + n <= b.len() {
            Some(
                (
                    PeerAddrV {
                        id: b.subrange(pos, pos + 32),
                        addr: NetAddrV {
                            octets: b.subrange(pos + 33, pos + 33 + n),
                            port: dec_u16_at(b, pos + 33 + n),
                        },
                    },
                    pos + 35 + n,
                ),
            )
        } else {
            None
        }
    } else {
        None
    }
}

/// Decodes a given count of address records from a position. Returns the
/// records and the position after the last.
pub open spec fn dec_addrs(b: Seq<u8>, pos: int, n: nat) -> Option<(Seq<PeerAddrV>, int)>
    decreases n,
{
    if n == 0 {
        Some((Seq::<PeerAddrV>::empty(), pos))
    } else {
        match dec_addr(b, pos) {
            None => None,
            Some((a, p)) => match dec_addrs(b, p, (n - 1) as nat) {
                None => None,
                Some((rest, end)) => Some((seq![a] + rest, end)),
            },
        }
    }
}

/// Decodes a whole frame to a wire model. Accepts exactly the frames that
/// some well-formed wire model encodes to; everything else is nothing.
pub open spec fn spec_decode(b: Seq<u8>) -> Option<WireV> {
    if b.len() < 1 {
        None
    } else if b[0] == TAG_HELLO {
        if b.len() == 3 {
            Some(WireV::Hello(dec_u16_at(b, 1)))
        } else {
            None
        }
    } else if b[0] == TAG_DATA {
        if b.len() >= 9 && dec_u64_at(b, 1) as int == b.len() - 9 {
            Some(WireV::Data(b.skip(9)))
        } else {
            None
        }
    } else if b[0] == TAG_PEERS {
        if b.len() >= 9 {
            match dec_addrs(b, 9, dec_u64_at(b, 1) as nat) {
                None => None,
                Some((l, end)) => if end == b.len() {
                    Some(WireV::Peers(l))
                } else {
                    None
                },
            }
        } else {
            None
        }
    } else {
        None
    }
}

/// The two little-endian bytes of a 16-bit integer reassemble to it.
pub proof fn lemma_u16_round_trip(x: u16)
    ensures
        ((x & 0xff) as u8 as u16) | ((((x >> 8) & 0xff) as u8 as u16) << 8) == x,
{
    assert(((x & 0xff) as u8 as u16) | ((((x >> 8) & 0xff) as u8 as u16) << 8) == x)
        by (bit_vector);
}

/// The eight little-endian bytes of a 64-bit integer reassemble to it.
pub proof fn lemma_u64_round_trip(x: u64)
    ensures
        ((x & 0xff) as u8 as u64) | ((((x >> 8) & 0xff) as u8 as u64) << 8) | ((((x >> 16)
            & 0xff) as u8 as u64) << 16) | ((((x >> 24) & 0xff) as u8 as u64) << 24) | ((((x >> 32)
            & 0xff) as u8 as u64) << 32) | ((((x >> 40) & 0xff) as u8 as u64) << 40) | ((((x >> 48)
            & 0xff) as u8 as u64) << 48) | ((((x >> 56) & 0xff) as u8 as u64) << 56) == x,
{
    assert(((x & 0xff) as u8 as u64) | ((((x >> 8) & 0xff) as u8 as u64) << 8) | ((((x >> 16)
        & 0xff) as u8 as u64) << 16) | ((((x >> 24) & 0xff) as u8 as u64) << 24) | ((((x >> 32)
        & 0xff) as u8 as u64) << 32) | ((((x >> 40) & 0xff) as u8 as u64) << 40) | ((((x >> 48)
        & 0xff) as u8 as u64) << 48) | ((((x >> 56) & 0xff) as u8 as u64) << 56) == x)
        by (bit_vector);
}

/// Reading where an encoded 16-bit integer lies recovers it.
pub proof fn lemma_dec_enc_u16(b: Seq<u8>, pos: int, x: u16)
    requires
        0 <= pos,
        pos + 2 <= b.len(),
        b[pos] == enc_u16(x)[0],
        b[pos + 1] == enc_u16(x)[1],
    ensures
        dec_u16_at(b, pos) == x,
{
    lemma_u16_round_trip(x);
}

/// Reading where an encoded 64-bit integer lies recovers it.
pub proof fn lemma_dec_enc_u64(b: Seq<u8>, pos: int, x: u64)
    requires
        0 <= pos,
        pos + 8 <= b.len(),
        b.subrange(pos, pos + 8) == enc_u64(x),
    ensures
        dec_u64_at(b, pos) == x,
{
    assert forall|k: int| 0 <= k < 8 implies b[pos + k] == enc_u64(x)[k] by {
        assert(b.subrange(pos, pos + 8)[k] == b[pos + k]);
    }
    lemma_u64_round_trip(x);
}

fn push_u16(out: &mut Vec<u8>, x: u16)
    ensures
        final(out)@ == old(out)@ + enc_u16(x),
{
    proof {
        assert(x & 0xff < 256 && (x >> 8) & 0xff < 256) by (bit_vector);
    }
    out.push((x & 0xff) as u8);
    out.push(((x >> 8) & 0xff) as u8);
    proof {
        assert(out@ =~= old(out)@ + enc_u16(x));
    }
}

fn push_u64(out: &mut Vec<u8>, x: u64)
    ensures
        final(out)@ == old(out)@ + enc_u64(x),
{
    proof {
        assert(x & 0xff < 256 && (x >> 8) & 0xff < 256 && (x >> 16) & 0xff < 256 && (x >> 24)
            & 0xff < 256 && (x >> 32) & 0xff < 256 && (x >> 40) & 0xff < 256 && (x >> 48) & 0xff
            < 256 && (x >> 56) & 0xff < 256) by (bit_vector);
    }
    out.push((x & 0xff) as u8);
    out.push(((x >> 8) & 0xff) as u8);
    out.push(((x >> 16) & 0xff) as u8);
    out.push(((x >> 24) & 0xff) as u8);
    out.push(((x >> 32) & 0xff) as u8);
    out.push(((x >> 40) & 0xff) as u8);
    out.push(((x >> 48) & 0xff) as u8);
    out.push(((x >> 56) & 0xff) as u8);
    proof {
        assert(out@ =~= old(out)@ + enc_u64(x));
    }
}

fn push_bytes(out: &mut Vec<u8>, b: &Vec<u8>)
    ensures
        final(out)@ == old(out)@ + b@,
{
    let mut i: usize = 0;
    while i < b.len()
        invariant
            i <= b@.len(),
            out@ == old(out)@ + b@.subrange(0, i as int),
        decreases b@.len() - i,
    {
        out.push(b[i]);
        i += 1;
        proof {
            assert(out@ =~= old(out)@ + b@.subrange(0, i as int));
        }
    }
    proof {
        assert(out@ =~= old(out)@ + b@);
    }
}

fn read_u16(b: &Vec<u8>, pos: usize) -> (r: u16)
    requires
        pos + 2 <= b@.len(),
    ensures
        r == dec_u16_at(b@, pos as int),
{
    // Pins the length as a machine word, so the index sums below cannot wrap.
    let _n = b.len();
    (b[pos] as u16) | ((b[pos + 1] as u16) << 8)
}

fn read_u64(b: &Vec<u8>, pos: usize) -> (r: u64)
    requires
        pos + 8 <= b@.len(),
    ensures
        r == dec_u64_at(b@, pos as int),
{
    // Pins the length as a machine word, so the index sums below cannot wrap.
    let _n = b.len();
    (b[pos] as u64) | ((b[pos + 1] as u64) << 8) | ((b[pos + 2] as u64) << 16) | ((b[pos
        + 3] as u64) << 24) | ((b[pos + 4] as u64) << 32) | ((b[pos + 5] as u64) << 40) | ((b[pos
        + 6] as u64) << 48) | ((b[pos + 7] as u64) << 56)
}

fn copy_range(b: &Vec<u8>, start: usize, end: usize) -> (r: Vec<u8>)
    requires
        start <= end,
        end <= b@.len(),
    ensures
        r@ == b@.subrange(start as int, end as int),
{
    let mut r: Vec<u8> = Vec::new();
    let mut i: usize = start;
    while i < end
        invariant
            start <= i <= end,
            end <= b@.len(),
            r@ == b@.subrange(start as int, i as int),
        decreases end - i,
    {
        r.push(b[i]);
        i += 1;
        proof {
            assert(r@ =~= b@.subrange(start as int, i as int));
        }
    }
    r
}

fn encode_addr(a: &PeerAddr, out: &mut Vec<u8>)
    requires
        a.wf(),
    ensures
        final(out)@ == old(out)@ + enc_addr(a@),
{
    push_bytes(out, a.id.key_bytes());
    out.push(a.addr.octets.len() as u8);
    push_bytes(out, &a.addr.octets);
    push_u16(out, a.addr.port);
    proof {
        assert(out@ =~= old(out)@ + enc_addr(a@));
    }
}

fn encode_addrs(v: &Vec<PeerAddr>, i: usize, out: &mut Vec<u8>)
    requires
        i <= v@.len(),
        forall|j: int| 0 <= j < v@.len() ==> (#[trigger] v@[j]).wf(),
    ensures
        final(out)@ == old(out)@ + enc_addrs(addrs_view(v@.skip(i as int))),
    decreases v@.len() - i,
{
    if i < v.len() {
        encode_addr(&v[i], out);
        encode_addrs(v, i + 1, out);
        proof {
            let l = addrs_view(v@.skip(i as int));
            assert(l[0] == v@[i as int]@);
            assert(l.drop_first() =~= addrs_view(v@.skip(i as int + 1)));
            assert(out@ =~= old(out)@ + enc_addrs(l));
        }
    } else {
        proof {
            assert(addrs_view(v@.skip(i as int)).len() == 0);
            assert(out@ =~= old(out)@ + enc_addrs(addrs_view(v@.skip(i as int))));
        }
    }
}

/// Encodes a message to its wire bytes. The result is exactly the encoding
/// of the message's wire model, and that model is well formed, so that
/// `lemma_decode_encode` applies to it.
pub fn encode_message(m: &PeerMessage) -> (r: Vec<u8>)
    requires
        msg_wf(*m),
    ensures
        r@ == enc_wire(wire_of(*m)),
        wire_wf(wire_of(*m)),
{
    let mut out: Vec<u8> = Vec::new();
    match m {
        PeerMessage::Hello(p) => {
            out.push(TAG_HELLO);
            push_u16(&mut out, *p);
            proof {
                assert(out@ =~= enc_wire(wire_of(*m)));
            }
        },
        PeerMessage::Data(s) => {
            out.push(TAG_DATA);
            let bytes = text_to_bytes(s);
            push_u64(&mut out, bytes.len() as u64);
            push_bytes(&mut out, &bytes);
            proof {
                assert(out@ =~= enc_wire(wire_of(*m)));
            }
        },
        PeerMessage::Peers(v) => {
            out.push(TAG_PEERS);
            push_u64(&mut out, v.len() as u64);
            encode_addrs(v, 0, &mut out);
            proof {
                let l = addrs_view(v@);
                assert(v@.skip(0) =~= v@);
                assert forall|i: int| 0 <= i < l.len() implies addr_wf(#[trigger] l[i]) by {
                    assert(l[i] == v@[i]@);
                }
                assert(out@ =~= enc_wire(wire_of(*m)));
            }
        },
    }
    out
}

fn decode_addr(b: &Vec<u8>, pos: usize) -> (r: Option<(PeerAddr, usize)>)
    requires
        pos <= b@.len(),
    ensures
        match dec_addr(b@, pos as int) {
            None => r is None,
            Some((a, p)) => r matches Some(x) && x.0@ == a && x.1 == p && x.0.wf(),
        },
{
    let n = b.len();
    if n - pos < 33 {
        return None;
    }
    let octl = b[pos + 32];
    if !(octl == 4 || octl == 16) {
        return None;
    }
    let octl_us = octl as usize;
    if n - pos < 35 + octl_us {
        return None;
    }
    let idb = copy_range(b, pos, pos + 32);
    let id = PeerID::from_key_bytes(idb).unwrap();
    let octets = copy_range(b, pos + 33, pos + 33 + octl_us);
    let port = read_u16(b, pos + 33 + octl_us);
    Some((PeerAddr { id, addr: NetAddr { octets, port } }, pos + 35 + octl_us))
}

fn decode_addrs(b: &Vec<u8>, pos: usize, n: u64) -> (r: Option<(Vec<PeerAddr>, usize)>)
    requires
        pos <= b@.len(),
    ensures
        match dec_addrs(b@, pos as int, n as nat) {
            None => r is None,
            Some((l, end)) => r matches Some(x) && addrs_view(x.0@) == l && x.1 == end && (
            forall|j: int| 0 <= j < x.0@.len() ==> (#[trigger] x.0@[j]).wf()),
        },
    decreases n,
{
    if n == 0 {
        let v: Vec<PeerAddr> = Vec::new();
        proof {
            assert(addrs_view(v@) =~= Seq::<PeerAddrV>::empty());
        }
        return Some((v, pos));
    }
    match decode_addr(b, pos) {
        None => None,
        Some((a, p)) => {
            match decode_addrs(b, p, n - 1) {
                None => None,
                Some((v2, end)) => {
                    let mut v = v2;
                    let ghost tail = v@;
                    v.insert(0, a);
                    proof {
                        let (l, e) = dec_addrs(b@, pos as int, n as nat).unwrap();
                        assert(addrs_view(v@) =~= l);
                    }
                    Some((v, end))
                },
            }
        },
    }
}

/// What decoding a frame returns, stated against the frame's wire model:
/// nothing for a frame no well-formed model encodes to; the message whose
/// wire model the frame decodes to otherwise, with the text payload being
/// the unique text whose UTF-8 bytes the frame carries.
pub open spec fn decode_post(b: Seq<u8>, r: Option<PeerMessage>) -> bool {
    match spec_decode(b) {
        None => r is None,
        Some(w) => match w {
            WireV::Hello(p) => r == Some(PeerMessage::Hello(p)),
            WireV::Data(d) => (r is None ==> (forall|s: Seq<char>| utf8_of(s) != d)) && (r
                matches Some(m) ==> (m matches PeerMessage::Data(t) && utf8_of(t@) == d)) && (
            forall|s: Seq<char>|
                utf8_of(s) == d ==> (r matches Some(m) && m matches PeerMessage::Data(t) && t@
                    == s)),
            WireV::Peers(l) => r matches Some(m) && m matches PeerMessage::Peers(v) && addrs_view(
                v@,
            ) == l,
        },
    }
}

/// Decodes wire bytes back to a message. A frame that is not exactly the
/// encoding of a message — unknown tag, wrong length, bad octet count,
/// trailing bytes, text that is not valid UTF-8 — is rejected as nothing.
pub fn decode_message(b: &Vec<u8>) -> (r: Option<PeerMessage>)
    ensures
        decode_post(b@, r),
        r matches Some(m) ==> msg_wf(m) && spec_decode(b@) == Some(wire_of(m)),
{
    let n = b.len();
    if n < 1 {
        return None;
    }
    let tag = b[0];
    if tag == TAG_HELLO {
        if n == 3 {
            let p = read_u16(b, 1);
            Some(PeerMessage::Hello(p))
        } else {
            None
        }
    } else if tag == TAG_DATA {
        if n < 9 {
            return None;
        }
        let len = read_u64(b, 1);
        if len != (n - 9) as u64 {
            return None;
        }
        let payload = copy_range(b, 9, n);
        proof {
            assert(payload@ =~= b@.skip(9));
        }
        match bytes_to_text(payload) {
            Some(t) => Some(PeerMessage::Data(t)),
            None => None,
        }
    } else if tag == TAG_PEERS {
        if n < 9 {
            return None;
        }
        let cnt = read_u64(b, 1);
        match decode_addrs(b, 9, cnt) {
            None => None,
            Some((v, end)) => {
                if end == n {
                    Some(PeerMessage::Peers(v))
                } else {
                    None
                }
            },
        }
    } else {
        None
    }
}

/// Decoding one encoded address record where it lies recovers it.
proof fn lemma_dec_enc_addr(b: Seq<u8>, pos: int, a: PeerAddrV)
    requires
        addr_wf(a),
        0 <= pos,
        pos + enc_addr(a).len() <= b.len(),
        b.subrange(pos, pos + enc_addr(a).len() as int) == enc_addr(a),
    ensures
        dec_addr(b, pos) == Some((a, pos + enc_addr(a).len() as int)),
{
    let e = enc_addr(a);
    let n = a.addr.octets.len() as int;
    assert(e.len() == 35 + n);
    assert forall|k: int| 0 <= k < e.len() implies b[pos + k] == e[k] by {
        assert(b.subrange(pos, pos + e.len() as int)[k] == b[pos + k]);
    }
    assert(e[32] == a.addr.octets.len() as u8);
    assert(b.subrange(pos, pos + 32) =~= a.id);
    assert forall|j: int| 0 <= j < n implies e[33 + j] == a.addr.octets[j] by {}
    assert(b.subrange(pos + 33, pos + 33 + n) =~= a.addr.octets);
    assert(e[33 + n] == enc_u16(a.addr.port)[0]);
    assert(e[34 + n] == enc_u16(a.addr.port)[1]);
    lemma_dec_enc_u16(b, pos + 33 + n, a.addr.port);
    let (d, p) = dec_addr(b, pos).unwrap();
    assert(d.addr.octets =~= a.addr.octets);
    assert(d.id =~= a.id);
}

/// Decoding a list of encoded address records where they lie recovers them.
proof fn lemma_dec_enc_addrs(b: Seq<u8>, pos: int, l: Seq<PeerAddrV>)
    requires
        forall|i: int| 0 <= i < l.len() ==> addr_wf(#[trigger] l[i]),
        0 <= pos,
        pos + enc_addrs(l).len() <= b.len(),
        b.subrange(pos, pos + enc_addrs(l).len() as int) == enc_addrs(l),
    ensures
        dec_addrs(b, pos, l.len()) == Some((l, pos + enc_addrs(l).len() as int)),
    decreases l.len(),
{
    if l.len() == 0 {
        assert(dec_addrs(b, pos, 0) == Some((Seq::<PeerAddrV>::empty(), pos)));
        assert(l =~= Seq::<PeerAddrV>::empty());
    } else {
        let e = enc_addrs(l);
        let e0 = enc_addr(l[0]);
        let erest = enc_addrs(l.drop_first());
        assert(e == e0 + erest);
        assert forall|k: int| 0 <= k < e.len() implies b[pos + k] == e[k] by {
            assert(b.subrange(pos, pos + e.len() as int)[k] == b[pos + k]);
        }
        assert(b.subrange(pos, pos + e0.len() as int) =~= e0);
        lemma_dec_enc_addr(b, pos, l[0]);
        assert forall|k: int|
            0 <= k < erest.len() implies b.subrange(
            pos + e0.len() as int,
            pos + e0.len() + erest.len(),
        )[k] == erest[k] by {
            assert(b[pos + (e0.len() + k)] == e[e0.len() + k]);
        }
        assert(b.subrange(pos + e0.len() as int, pos + e0.len() + erest.len()) =~= erest);
        lemma_dec_enc_addrs(b, pos + e0.len() as int, l.drop_first());
        assert(seq![l[0]] + l.drop_first() =~= l);
    }
}

/// Law: the wire form round-trips. Decoding the encoding of any well-formed
/// wire model yields exactly that model; together with the contracts of
/// `encode_message` and `decode_message` this says that every message the
/// library encodes is decoded back to an equal message.
pub proof fn lemma_decode_encode(w: WireV)
    requires
        wire_wf(w),
    ensures
        spec_decode(enc_wire(w)) == Some(w),
{
    let b = enc_wire(w);
    match w {
        WireV::Hello(p) => {
            assert(b.len() == 3);
            assert(b[0] == TAG_HELLO);
            assert(b[1] == enc_u16(p)[0]);
            assert(b[2] == enc_u16(p)[1]);
            lemma_dec_enc_u16(b, 1, p);
        },
        WireV::Data(d) => {
            let le = enc_u64(d.len() as u64);
            assert(b.len() == 9 + d.len());
            assert(b[0] == TAG_DATA);
            assert forall|k: int| 0 <= k < 8 implies b[1 + k] == le[k] by {}
            assert(b.subrange(1, 9) =~= le);
            lemma_dec_enc_u64(b, 1, d.len() as u64);
            assert(b.skip(9) =~= d);
        },
        WireV::Peers(l) => {
            let le = enc_u64(l.len() as u64);
            let ea = enc_addrs(l);
            assert(b.len() == 9 + ea.len());
            assert(b[0] == TAG_PEERS);
            assert forall|k: int| 0 <= k < 8 implies b[1 + k] == le[k] by {}
            assert(b.subrange(1, 9) =~= le);
            lemma_dec_enc_u64(b, 1, l.len() as u64);
            assert(b.subrange(9, 9 + ea.len() as int) =~= ea);
            lemma_dec_enc_addrs(b, 9, l);
        },
    }
}

} // verus!
