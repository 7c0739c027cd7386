use vstd::prelude::*;

use vstd::utf8::encode_utf8;
use vstd::utf8::encode_utf8_valid_utf8;
use vstd::utf8::encode_utf8_decode_utf8;
use vstd::utf8::valid_utf8;

use crate::message::Message;
use crate::message::MessageV;
use crate::message::NetworkState;
use crate::message::NewConnection;
use crate::message::ConnectionInfo;
use crate::message::Text;
use crate::peer::Info;
use crate::peer::PeerAddress;

verus! {

/// How reading a frame can fail.
#[derive(Debug, Clone, Copy, PartialEq, Eq, Structural)]
pub enum CodecError {
    /// The length prefix is malformed or does not match the frame.
    FrameError,
    /// The payload matches no known message.
    DecodeError,
}

/// A 16-bit value as two bytes, most significant first.
pub open spec fn enc_u16(v: u16) -> Seq<u8> {
    seq![(v / 256) as u8, (v % 256) as u8]
}

/// A 32-bit value as four bytes, most significant first.
pub open spec fn enc_u32(v: u32) -> Seq<u8> {
    seq![
        (v / 16777216) as u8,
        ((v / 65536) % 256) as u8,
        ((v / 256) % 256) as u8,
        (v % 256) as u8,
    ]
}

/// A peer address on the wire: four IP bytes, then the port.
pub open spec fn enc_addr(a: PeerAddress) -> Seq<u8> {
    enc_u32(a.ip) + enc_u16(a.port)
}

/// One network-state entry on the wire: the peer's address, then the
/// port it announced.
pub open spec fn enc_entry(e: (PeerAddress, Info)) -> Seq<u8> {
    enc_addr(e.0) + enc_u16(e.1.port)
}

/// The entries of a network-state snapshot, in order.
pub open spec fn enc_entries(s: Seq<(PeerAddress, Info)>) -> Seq<u8>
    decreases s.len(),
{
    if s.len() == 0 {
        Seq::empty()
    } else {
        enc_entries(s.drop_last()) + enc_entry(s.last())
    }
}

/// The tag byte that names a message's variant on the wire.
pub open spec fn tag_of(m: MessageV) -> u8 {
    match m {
        MessageV::ConnectionInfo { .. } => 1u8,
        MessageV::NewConnection { .. } => 2u8,
        MessageV::NetworkState { .. } => 3u8,
        MessageV::Text { .. } => 4u8,
    }
}

/// A message's payload: its tag byte, then its fields.  A counted field
/// (network-state entries, text bytes) is preceded by its 32-bit count.
pub open spec fn payload_spec(m: MessageV) -> Seq<u8> {
    match m {
        MessageV::ConnectionInfo { port } => seq![1u8] + enc_u16(port),
        MessageV::NewConnection { addr } => seq![2u8] + enc_addr(addr),
        MessageV::NetworkState { peers } => seq![3u8] + enc_u32(peers.len() as u32) + enc_entries(
            peers,
        ),
        MessageV::Text { text } => seq![4u8] + enc_u32(encode_utf8(text).len() as u32)
            + encode_utf8(text),
    }
}

/// The payload fits behind a 32-bit length prefix; every message a real
/// machine can hold satisfies this.
pub open spec fn encodable(m: MessageV) -> bool {
    payload_spec(m).len() < 0x100000000
}

/// A full frame: the payload's length as four bytes, then the payload.
pub open spec fn frame_spec(m: MessageV) -> Seq<u8> {
    enc_u32(payload_spec(m).len() as u32) + payload_spec(m)
}

/// The value of the four-byte length prefix at the head of `s`.
pub open spec fn prefix_val(s: Seq<u8>) -> int {
    s[0] * 16777216 + s[1] * 65536 + s[2] * 256 + s[3]
}

proof fn lemma_u16_split(a: u8, c: u8)
    ensures
        ((a as u16) * 256 + (c as u16)) / 256 == a as u16,
        ((a as u16) * 256 + (c as u16)) % 256 == c as u16,
{
    vstd::arithmetic::div_mod::lemma_fundamental_div_mod_converse(
        a * 256 + c,
        256,
        a as int,
        c as int,
    );
}

proof fn lemma_u32_split(a: u8, b: u8, c: u8, d: u8)
    ensures
        ({
            let v = (a as u32) * 16777216 + (b as u32) * 65536 + (c as u32) * 256 + (d as u32);
            v / 16777216 == a as u32 && (v / 65536) % 256 == b as u32 && (v / 256) % 256 == c as u32
                && v % 256 == d as u32
        }),
{
    let v = (a as int) * 16777216 + (b as int) * 65536 + (c as int) * 256 + (d as int);
    vstd::arithmetic::div_mod::lemma_fundamental_div_mod_converse(
        v,
        16777216,
        a as int,
        (b as int) * 65536 + (c as int) * 256 + (d as int),
    );
    vstd::arithmetic::div_mod::lemma_fundamental_div_mod_converse(
        v,
        65536,
        (a as int) * 256 + (b as int),
        (c as int) * 256 + (d as int),
    );
    vstd::arithmetic::div_mod::lemma_fundamental_div_mod_converse(
        (a as int) * 256 + (b as int),
        256,
        a as int,
        b as int,
    );
    vstd::arithmetic::div_mod::lemma_fundamental_div_mod_converse(
        v,
        256,
        (a as int) * 65536 + (b as int) * 256 + (c as int),
        d as int,
    );
    vstd::arithmetic::div_mod::lemma_fundamental_div_mod_converse(
        (a as int) * 65536 + (b as int) * 256 + (c as int),
        256,
        (a as int) * 256 + (b as int),
        c as int,
    );
}

proof fn lemma_u16_join(v: u16)
    ensures
        (v / 256) * 256 + (v % 256) == v,
        v / 256 <= 255,
        v % 256 <= 255,
{
    vstd::arithmetic::div_mod::lemma_fundamental_div_mod(v as int, 256);
    vstd::arithmetic::div_mod::lemma_mod_bound(v as int, 256);
}

proof fn lemma_u32_join(v: u32)
    ensures
        (v / 16777216) * 16777216 + ((v / 65536) % 256) * 65536 + ((v / 256) % 256) * 256 + (v
            % 256) == v,
        v / 16777216 <= 255,
{
    vstd::arithmetic::div_mod::lemma_fundamental_div_mod(v as int, 16777216);
    vstd::arithmetic::div_mod::lemma_fundamental_div_mod(v as int, 65536);
    vstd::arithmetic::div_mod::lemma_fundamental_div_mod(v as int, 256);
    vstd::arithmetic::div_mod::lemma_fundamental_div_mod((v as int) / 65536, 256);
    vstd::arithmetic::div_mod::lemma_fundamental_div_mod((v as int) / 256, 256);
    vstd::arithmetic::div_mod::lemma_mod_bound(v as int, 16777216);
    vstd::arithmetic::div_mod::lemma_mod_bound(v as int, 65536);
    vstd::arithmetic::div_mod::lemma_mod_bound(v as int, 256);
    vstd::arithmetic::div_mod::lemma_mod_bound((v as int) / 65536, 256);
    vstd::arithmetic::div_mod::lemma_mod_bound((v as int) / 256, 256);
    assert((v as int) / 65536 == ((v as int) / 16777216) * 256 + ((v as int) / 65536) % 256) by {
        vstd::arithmetic::div_mod::lemma_div_denominator(v as int, 65536, 256);
        vstd::arithmetic::div_mod::lemma_fundamental_div_mod((v as int) / 65536, 256);
    }
    assert((v as int) / 256 == ((v as int) / 65536) * 256 + ((v as int) / 256) % 256) by {
        vstd::arithmetic::div_mod::lemma_div_denominator(v as int, 256, 256);
        vstd::arithmetic::div_mod::lemma_fundamental_div_mod((v as int) / 256, 256);
    }
}

/// Reading back the two bytes of `enc_u16` gives the value written.
proof fn lemma_enc_u16_val(v: u16)
    ensures
        enc_u16(v).len() == 2,
        enc_u16(v)[0] * 256 + enc_u16(v)[1] == v,
{
    lemma_u16_join(v);
}

/// Reading back the four bytes of `enc_u32` gives the value written.
proof fn lemma_enc_u32_val(v: u32)
    ensures
        enc_u32(v).len() == 4,
        enc_u32(v)[0] * 16777216 + enc_u32(v)[1] * 65536 + enc_u32(v)[2] * 256 + enc_u32(v)[3] == v,
{
    lemma_u32_join(v);
}

/// Each entry takes eight bytes on the wire.
proof fn lemma_enc_entries_len(s: Seq<(PeerAddress, Info)>)
    ensures
        enc_entries(s).len() == 8 * s.len(),
    decreases s.len(),
{
    if s.len() > 0 {
        lemma_enc_entries_len(s.drop_last());
    }
}

/// The bytes of entry `i` sit at offset `8 * i` of the encoded entries.
proof fn lemma_enc_entries_index(s: Seq<(PeerAddress, Info)>, i: int)
    requires
        0 <= i < s.len(),
    ensures
        enc_entries(s).subrange(8 * i, 8 * i + 8) == enc_entry(s[i]),
    decreases s.len(),
{
    lemma_enc_entries_len(s);
    lemma_enc_entries_len(s.drop_last());
    if i == s.len() - 1 {
        assert(enc_entries(s).subrange(8 * i, 8 * i + 8) =~= enc_entry(s.last()));
    } else {
        lemma_enc_entries_index(s.drop_last(), i);
        assert(enc_entries(s).subrange(8 * i, 8 * i + 8) =~= enc_entries(s.drop_last()).subrange(
            8 * i,
            8 * i + 8,
        ));
    }
}

/// Two entry sequences of one length and one encoding are the same.
proof fn lemma_enc_entries_inj(s1: Seq<(PeerAddress, Info)>, s2: Seq<(PeerAddress, Info)>)
    requires
        s1.len() == s2.len(),
        enc_entries(s1) == enc_entries(s2),
    ensures
        s1 == s2,
{
    assert forall|i: int| 0 <= i < s1.len() implies s1[i] == s2[i] by {
        lemma_enc_entries_index(s1, i);
        lemma_enc_entries_index(s2, i);
        lemma_entry_bytes_inj(s1[i], s2[i]);
    }
    assert(s1 =~= s2);
}

/// Two entries with one wire image are the same entry.
proof fn lemma_entry_bytes_inj(e1: (PeerAddress, Info), e2: (PeerAddress, Info))
    requires
        enc_entry(e1) == enc_entry(e2),
    ensures
        e1 == e2,
{
    lemma_enc_u32_val(e1.0.ip);
    lemma_enc_u32_val(e2.0.ip);
    lemma_enc_u16_val(e1.0.port);
    lemma_enc_u16_val(e2.0.port);
    lemma_enc_u16_val(e1.1.port);
    lemma_enc_u16_val(e2.1.port);
    assert(enc_entry(e1)[0] == enc_u32(e1.0.ip)[0]);
    assert(enc_entry(e1)[1] == enc_u32(e1.0.ip)[1]);
    assert(enc_entry(e1)[2] == enc_u32(e1.0.ip)[2]);
    assert(enc_entry(e1)[3] == enc_u32(e1.0.ip)[3]);
    assert(enc_entry(e1)[4] == enc_u16(e1.0.port)[0]);
    assert(enc_entry(e1)[5] == enc_u16(e1.0.port)[1]);
    assert(enc_entry(e1)[6] == enc_u16(e1.1.port)[0]);
    assert(enc_entry(e1)[7] == enc_u16(e1.1.port)[1]);
    assert(enc_entry(e2)[0] == enc_u32(e2.0.ip)[0]);
    assert(enc_entry(e2)[1] == enc_u32(e2.0.ip)[1]);
    assert(enc_entry(e2)[2] == enc_u32(e2.0.ip)[2]);
    assert(enc_entry(e2)[3] == enc_u32(e2.0.ip)[3]);
    assert(enc_entry(e2)[4] == enc_u16(e2.0.port)[0]);
    assert(enc_entry(e2)[5] == enc_u16(e2.0.port)[1]);
    assert(enc_entry(e2)[6] == enc_u16(e2.1.port)[0]);
    assert(enc_entry(e2)[7] == enc_u16(e2.1.port)[1]);
}

/// The shape of every payload: its length and its head, by variant.
proof fn lemma_payload_shape(m: MessageV)
    ensures
        payload_spec(m).len() >= 1,
        payload_spec(m)[0] == tag_of(m),
        1 <= tag_of(m) <= 4,
        m matches MessageV::ConnectionInfo { port } ==> payload_spec(m).len() == 3,
        m matches MessageV::NewConnection { addr } ==> payload_spec(m).len() == 7,
        m matches MessageV::NetworkState { peers } ==> payload_spec(m).len() == 5 + 8 * peers.len()
            && payload_spec(m).subrange(1, 5) == enc_u32(peers.len() as u32) && payload_spec(
            m,
        ).subrange(5, payload_spec(m).len() as int) == enc_entries(peers),
        m matches MessageV::Text { text } ==> payload_spec(m).len() == 5 + encode_utf8(text).len()
            && payload_spec(m).subrange(1, 5) == enc_u32(encode_utf8(text).len() as u32)
            && payload_spec(m).subrange(5, payload_spec(m).len() as int) == encode_utf8(text),
{
    match m {
        MessageV::ConnectionInfo { port } => {},
        MessageV::NewConnection { addr } => {},
        MessageV::NetworkState { peers } => {
            lemma_enc_entries_len(peers);
            assert(payload_spec(m).subrange(1, 5) =~= enc_u32(peers.len() as u32));
            assert(payload_spec(m).subrange(5, payload_spec(m).len() as int) =~= enc_entries(
                peers,
            ));
        },
        MessageV::Text { text } => {
            assert(payload_spec(m).subrange(1, 5) =~= enc_u32(encode_utf8(text).len() as u32));
            assert(payload_spec(m).subrange(5, payload_spec(m).len() as int) =~= encode_utf8(text));
        },
    }
}

/// The wire encoding names one message: payloads of two messages agree
/// only when the messages do.  With the contracts of `encode_payload`
/// and `decode_payload` this gives the round trip: decoding an encoded
/// message yields the message itself, for every message.
pub proof fn lemma_payload_spec_injective(m1: MessageV, m2: MessageV)
    requires
        payload_spec(m1) == payload_spec(m2),
    ensures
        m1 == m2,
{
    lemma_payload_shape(m1);
    lemma_payload_shape(m2);
    match (m1, m2) {
        (MessageV::ConnectionInfo { port: p1 }, MessageV::ConnectionInfo { port: p2 }) => {
            lemma_enc_u16_val(p1);
            lemma_enc_u16_val(p2);
            assert(payload_spec(m1)[1] == enc_u16(p1)[0]);
            assert(payload_spec(m1)[2] == enc_u16(p1)[1]);
            assert(payload_spec(m2)[1] == enc_u16(p2)[0]);
            assert(payload_spec(m2)[2] == enc_u16(p2)[1]);
        },
        (MessageV::NewConnection { addr: a1 }, MessageV::NewConnection { addr: a2 }) => {
            assert(payload_spec(m1).subrange(1, 7) =~= enc_addr(a1));
            assert(payload_spec(m2).subrange(1, 7) =~= enc_addr(a2));
            assert(enc_addr(a1) + enc_u16(0u16) =~= enc_entry((a1, Info { port: 0u16 })));
            assert(enc_addr(a2) + enc_u16(0u16) =~= enc_entry((a2, Info { port: 0u16 })));
            lemma_entry_bytes_inj((a1, Info { port: 0u16 }), (a2, Info { port: 0u16 }));
        },
        (MessageV::NetworkState { peers: s1 }, MessageV::NetworkState { peers: s2 }) => {
            assert(5 + 8 * s1.len() == 5 + 8 * s2.len());
            lemma_enc_entries_inj(s1, s2);
            assert(m1 =~= m2);
        },
        (MessageV::Text { text: t1 }, MessageV::Text { text: t2 }) => {
            assert(encode_utf8(t1) == encode_utf8(t2));
            encode_utf8_decode_utf8(t1);
            encode_utf8_decode_utf8(t2);
            assert(m1 =~= m2);
        },
        _ => {
            assert(tag_of(m1) == tag_of(m2));
        },
    }
}

/// A full frame also names one message: the round trip holds at the
/// frame level as well.
pub proof fn lemma_frame_spec_injective(m1: MessageV, m2: MessageV)
    requires
        frame_spec(m1) == frame_spec(m2),
    ensures
        m1 == m2,
{
    assert(payload_spec(m1) =~= frame_spec(m1).subrange(4, frame_spec(m1).len() as int));
    assert(payload_spec(m2) =~= frame_spec(m2).subrange(4, frame_spec(m2).len() as int));
    lemma_payload_spec_injective(m1, m2);
}

/// Appends a 16-bit value, most significant byte first.
fn push_u16(out: &mut Vec<u8>, v: u16)
    ensures
        final(out)@ == old(out)@ + enc_u16(v),
{
    out.push((v / 256) as u8);
    out.push((v % 256) as u8);
    proof {
        assert(final(out)@ =~= old(out)@ + enc_u16(v));
    }
}

/// Appends a 32-bit value, most significant byte first.
fn push_u32(out: &mut Vec<u8>, v: u32)
    ensures
        final(out)@ == old(out)@ + enc_u32(v),
{
    out.push((v / 16777216) as u8);
    out.push(((v / 65536) % 256) as u8);
    out.push(((v / 256) % 256) as u8);
    out.push((v % 256) as u8);
    proof {
        assert(final(out)@ =~= old(out)@ + enc_u32(v));
    }
}

/// Reads the 16-bit value whose two bytes sit at `i`.
fn read_u16(b: &Vec<u8>, i: usize) -> (r: u16)
    requires
        i + 2 <= b@.len(),
    ensures
        r == b@[i as int] * 256 + b@[i + 1],
        enc_u16(r) == b@.subrange(i as int, i + 2),
{
    let n = b.len();
    let hi = b[i];
    let lo = b[i + 1];
    let r = (hi as u16) * 256 + (lo as u16);
    proof {
        lemma_u16_split(hi, lo);
        assert(enc_u16(r) =~= b@.subrange(i as int, i + 2));
    }
    r
}

/// Reads the 32-bit value whose four bytes sit at `i`.
fn read_u32(b: &Vec<u8>, i: usize) -> (r: u32)
    requires
        i + 4 <= b@.len(),
    ensures
        r == b@[i as int] * 16777216 + b@[i + 1] * 65536 + b@[i + 2] * 256 + b@[i + 3],
        enc_u32(r) == b@.subrange(i as int, i + 4),
{
    let n = b.len();
    let b0 = b[i];
    let b1 = b[i + 1];
    let b2 = b[i + 2];
    let b3 = b[i + 3];
    let r = (b0 as u32) * 16777216 + (b1 as u32) * 65536 + (b2 as u32) * 256 + (b3 as u32);
    proof {
        lemma_u32_split(b0, b1, b2, b3);
        assert(enc_u32(r) =~= b@.subrange(i as int, i + 4));
    }
    r
}

/// Relies on `String::from_utf8`: it returns the string of exactly the
/// given bytes when they are valid UTF-8, and refuses them otherwise.
#[verifier::external_body]
fn string_from_utf8(v: Vec<u8>) -> (r: Option<String>)
    ensures
        r is Some <==> valid_utf8(v@),
        r matches Some(s) ==> encode_utf8(s@) == v@,
{
    String::from_utf8(v).ok()
}

/// Encodes a message's payload: its tag byte, then its fields.
pub fn encode_payload(msg: &Message) -> (r: Vec<u8>)
    requires
        encodable(msg@),
    ensures
        r@ == payload_spec(msg@),
{
    let mut out: Vec<u8> = Vec::new();
    match msg {
        Message::ConnectionInfo(ci) => {
            out.push(1u8);
            push_u16(&mut out, ci.port);
            proof {
                assert(out@ =~= payload_spec(msg@));
            }
        },
        Message::NewConnection(nc) => {
            out.push(2u8);
            push_u32(&mut out, nc.addr.ip);
            push_u16(&mut out, nc.addr.port);
            proof {
                assert(out@ =~= payload_spec(msg@));
            }
        },
        Message::NetworkState(ns) => {
            proof {
                lemma_payload_shape(msg@);
                lemma_enc_entries_len(ns.peers@);
            }
            out.push(3u8);
            let n = ns.peers.len();
            push_u32(&mut out, n as u32);
            let ghost head = seq![3u8] + enc_u32(n as u32);
            for i in 0..n
                invariant
                    n == ns.peers@.len(),
                    n < 0x100000000,
                    head == seq![3u8] + enc_u32(n as u32),
                    out@ == head + enc_entries(ns.peers@.take(i as int)),
            {
                let (addr, info) = ns.peers[i];
                push_u32(&mut out, addr.ip);
                push_u16(&mut out, addr.port);
                push_u16(&mut out, info.port);
                proof {
                    assert(ns.peers@.take(i + 1).drop_last() =~= ns.peers@.take(i as int));
                    assert(ns.peers@.take(i + 1).last() == ns.peers@[i as int]);
                    assert(out@ =~= head + enc_entries(ns.peers@.take(i + 1)));
                }
            }
            proof {
                assert(ns.peers@.take(n as int) =~= ns.peers@);
                assert(out@ =~= payload_spec(msg@));
            }
        },
        Message::Text(t) => {
            proof {
                lemma_payload_shape(msg@);
            }
            out.push(4u8);
            let bs = t.text.as_str().as_bytes();
            let k = bs.len();
            push_u32(&mut out, k as u32);
            let ghost head = seq![4u8] + enc_u32(k as u32);
            for j in 0..k
                invariant
                    k == bs@.len(),
                    bs@ == encode_utf8(t.text@),
                    head == seq![4u8] + enc_u32(k as u32),
                    out@ == head + bs@.take(j as int),
            {
                out.push(bs[j]);
                proof {
                    assert(out@ =~= head + bs@.take(j + 1));
                }
            }
            proof {
                assert(bs@.take(k as int) =~= bs@);
                assert(out@ =~= payload_spec(msg@));
            }
        },
    }
    out
}

/// Encodes a full frame: the payload's length as four bytes, then the
/// payload itself.
pub fn encode(msg: &Message) -> (r: Vec<u8>)
    requires
        encodable(msg@),
    ensures
        r@ == frame_spec(msg@),
{
    let payload = encode_payload(msg);
    let mut out: Vec<u8> = Vec::new();
    push_u32(&mut out, payload.len() as u32);
    let k = payload.len();
    for j in 0..k
        invariant
            k == payload@.len(),
            payload@ == payload_spec(msg@),
            out@ == enc_u32(payload@.len() as u32) + payload@.take(j as int),
    {
        out.push(payload[j]);
        proof {
            assert(out@ =~= enc_u32(payload@.len() as u32) + payload@.take(j + 1));
        }
    }
    proof {
        assert(payload@.take(k as int) =~= payload@);
    }
    out
}

/// Decodes a handshake payload; see `decode_payload`.
fn decode_ci(b: &Vec<u8>) -> (r: Result<Message, CodecError>)
    requires
        b@.len() >= 1,
        b@[0] == 1,
    ensures
        r matches Ok(m) ==> encodable(m@) && payload_spec(m@) == b@,
        forall|mv: MessageV| encodable(mv) && payload_spec(mv) == b@ ==> r is Ok,
        r is Err ==> r == Err::<Message, CodecError>(CodecError::DecodeError),
{
    if b.len() != 3 {
        proof {
            assert forall|mv: MessageV| encodable(mv) && payload_spec(mv) == b@ implies false by {
                lemma_payload_shape(mv);
            }
        }
        return Err(CodecError::DecodeError);
    }
    let port = read_u16(b, 1);
    let m = Message::ConnectionInfo(ConnectionInfo { port });
    proof {
        assert(payload_spec(m@) =~= b@);
    }
    Ok(m)
}

/// Decodes a dial-request payload; see `decode_payload`.
fn decode_nc(b: &Vec<u8>) -> (r: Result<Message, CodecError>)
    requires
        b@.len() >= 1,
        b@[0] == 2,
    ensures
        r matches Ok(m) ==> encodable(m@) && payload_spec(m@) == b@,
        forall|mv: MessageV| encodable(mv) && payload_spec(mv) == b@ ==> r is Ok,
        r is Err ==> r == Err::<Message, CodecError>(CodecError::DecodeError),
{
    if b.len() != 7 {
        proof {
            assert forall|mv: MessageV| encodable(mv) && payload_spec(mv) == b@ implies false by {
                lemma_payload_shape(mv);
            }
        }
        return Err(CodecError::DecodeError);
    }
    let ip = read_u32(b, 1);
    let port = read_u16(b, 5);
    let m = Message::NewConnection(NewConnection { addr: PeerAddress { ip, port } });
    proof {
        assert(payload_spec(m@) =~= b@);
    }
    Ok(m)
}

/// Decodes a network-state payload; see `decode_payload`.
fn decode_ns(b: &Vec<u8>) -> (r: Result<Message, CodecError>)
    requires
        b@.len() >= 1,
        b@[0] == 3,
    ensures
        r matches Ok(m) ==> encodable(m@) && payload_spec(m@) == b@,
        forall|mv: MessageV| encodable(mv) && payload_spec(mv) == b@ ==> r is Ok,
        r is Err ==> r == Err::<Message, CodecError>(CodecError::DecodeError),
{
    let blen = b.len();
    if blen < 5 || (blen as u64) >= 0x100000000u64 {
        proof {
            assert forall|mv: MessageV| encodable(mv) && payload_spec(mv) == b@ implies false by {
                lemma_payload_shape(mv);
            }
        }
        return Err(CodecError::DecodeError);
    }
    let count = read_u32(b, 1);
    if (blen as u64) != 5u64 + (count as u64) * 8u64 {
        proof {
            assert forall|mv: MessageV| encodable(mv) && payload_spec(mv) == b@ implies false by {
                lemma_payload_shape(mv);
                match mv {
                    MessageV::NetworkState { peers } => {
                        lemma_enc_u32_val(peers.len() as u32);
                        assert(b@.subrange(1, 5) == enc_u32(peers.len() as u32));
                        assert(count == peers.len());
                    },
                    _ => {},
                }
            }
        }
        return Err(CodecError::DecodeError);
    }
    let mut entries: Vec<(PeerAddress, Info)> = Vec::new();
    let n = count as usize;
    for i in 0..n
        invariant
            n == count,
            blen == b@.len(),
            b@.len() == 5 + 8 * n,
            entries@.len() == i,
            enc_entries(entries@) =~= b@.subrange(5, 5 + 8 * i),
    {
        let base = 5 + i * 8;
        let ip = read_u32(b, base);
        let port = read_u16(b, base + 4);
        let iport = read_u16(b, base + 6);
        let ghost pre = entries@;
        entries.push((PeerAddress { ip, port }, Info { port: iport }));
        proof {
            let e = (PeerAddress { ip, port }, Info { port: iport });
            assert(entries@.drop_last() =~= pre);
            assert(entries@.last() == e);
            assert(enc_entry(e) =~= b@.subrange(5 + 8 * i, 5 + 8 * i + 8));
            assert(enc_entries(entries@) == enc_entries(pre) + enc_entry(e));
            assert(enc_entries(entries@) =~= b@.subrange(5, 5 + 8 * (i + 1)));
        }
    }
    let m = Message::NetworkState(NetworkState { peers: entries });
    proof {
        lemma_payload_shape(m@);
        lemma_enc_entries_len(entries@);
        assert(b@.subrange(5, 5 + 8 * (n as int)) =~= b@.subrange(5, b@.len() as int));
        assert(payload_spec(m@) =~= b@);
    }
    Ok(m)
}

/// Decodes a text payload; see `decode_payload`.
fn decode_text(b: &Vec<u8>) -> (r: Result<Message, CodecError>)
    requires
        b@.len() >= 1,
        b@[0] == 4,
    ensures
        r matches Ok(m) ==> encodable(m@) && payload_spec(m@) == b@,
        forall|mv: MessageV| encodable(mv) && payload_spec(mv) == b@ ==> r is Ok,
        r is Err ==> r == Err::<Message, CodecError>(CodecError::DecodeError),
{
    let blen = b.len();
    if blen < 5 || (blen as u64) >= 0x100000000u64 {
        proof {
            assert forall|mv: MessageV| encodable(mv) && payload_spec(mv) == b@ implies false by {
                lemma_payload_shape(mv);
            }
        }
        return Err(CodecError::DecodeError);
    }
    let k = read_u32(b, 1);
    if (blen as u64) != 5u64 + (k as u64) {
        proof {
            assert forall|mv: MessageV| encodable(mv) && payload_spec(mv) == b@ implies false by {
                lemma_payload_shape(mv);
                match mv {
                    MessageV::Text { text } => {
                        lemma_enc_u32_val(encode_utf8(text).len() as u32);
                        assert(b@.subrange(1, 5) == enc_u32(encode_utf8(text).len() as u32));
                        assert(k == encode_utf8(text).len());
                    },
                    _ => {},
                }
            }
        }
        return Err(CodecError::DecodeError);
    }
    let mut bytes: Vec<u8> = Vec::new();
    let n = blen - 5;
    for j in 0..n
        invariant
            n == b@.len() - 5,
            blen == b@.len(),
            bytes@ =~= b@.subrange(5, 5 + j),
    {
        bytes.push(b[5 + j]);
        proof {
            assert(bytes@ =~= b@.subrange(5, 5 + j + 1));
        }
    }
    proof {
        assert(bytes@ =~= b@.subrange(5, b@.len() as int));
    }
    match string_from_utf8(bytes) {
        Some(s) => {
            let m = Message::Text(Text { text: s });
            proof {
                lemma_payload_shape(m@);
                assert(encode_utf8(s@).len() == k);
                assert(payload_spec(m@) =~= b@);
            }
            Ok(m)
        },
        None => {
            proof {
                assert forall|mv: MessageV| encodable(mv) && payload_spec(mv) == b@ implies
                false by {
                    lemma_payload_shape(mv);
                    match mv {
                        MessageV::Text { text } => {
                            encode_utf8_valid_utf8(text);
                            assert(b@.subrange(5, b@.len() as int) == encode_utf8(text));
                        },
                        _ => {},
                    }
                }
            }
            Err(CodecError::DecodeError)
        },
    }
}

/// Decodes a payload.  Exactly the images of `payload_spec` are
/// accepted: decoding gives back precisely the message whose encoding
/// the bytes are, and refuses every other byte sequence.
pub fn decode_payload(b: &Vec<u8>) -> (r: Result<Message, CodecError>)
    ensures
        r matches Ok(m) ==> encodable(m@) && payload_spec(m@) == b@,
        forall|mv: MessageV| encodable(mv) && payload_spec(mv) == b@ ==> (r matches Ok(m) && m@
            == mv),
        r is Err ==> r == Err::<Message, CodecError>(CodecError::DecodeError),
{
    let r = if b.len() == 0 {
        proof {
            assert forall|mv: MessageV| encodable(mv) && payload_spec(mv) == b@ implies false by {
                lemma_payload_shape(mv);
            }
        }
        Err(CodecError::DecodeError)
    } else {
        let tag = b[0];
        if tag == 1 {
            decode_ci(b)
        } else if tag == 2 {
            decode_nc(b)
        } else if tag == 3 {
            decode_ns(b)
        } else if tag == 4 {
            decode_text(b)
        } else {
            proof {
                assert forall|mv: MessageV| encodable(mv) && payload_spec(mv) == b@ implies
                false by {
                    lemma_payload_shape(mv);
                }
            }
            Err(CodecError::DecodeError)
        }
    };
    proof {
        assert forall|mv: MessageV| encodable(mv) && payload_spec(mv) == b@ implies (r matches Ok(
            m,
        ) && m@ == mv) by {
            match r {
                Ok(m) => {
                    lemma_payload_spec_injective(m@, mv);
                },
                Err(_) => {},
            }
        }
    }
    r
}

/// Decodes a full frame: reads the length prefix, checks that exactly
/// that many payload bytes follow, and decodes them.  A malformed or
/// mismatched prefix is a `FrameError`; an unreadable payload is a
/// `DecodeError`.
pub fn decode(b: &Vec<u8>) -> (r: Result<Message, CodecError>)
    ensures
        r matches Ok(m) ==> encodable(m@) && frame_spec(m@) == b@,
        forall|mv: MessageV| encodable(mv) && frame_spec(mv) == b@ ==> (r matches Ok(m) && m@
            == mv),
        r matches Err(e) ==> (e == CodecError::FrameError <==> (b@.len() < 4 || prefix_val(b@)
            != b@.len() - 4)),
{
    if b.len() < 4 {
        proof {
            assert forall|mv: MessageV| encodable(mv) && frame_spec(mv) == b@ implies false by {
                lemma_payload_shape(mv);
            }
        }
        return Err(CodecError::FrameError);
    }
    let plen = read_u32(b, 0);
    if (b.len() as u64) != 4u64 + (plen as u64) {
        proof {
            assert forall|mv: MessageV| encodable(mv) && frame_spec(mv) == b@ implies false by {
                lemma_payload_shape(mv);
                lemma_enc_u32_val(payload_spec(mv).len() as u32);
                assert(b@.subrange(0, 4) == enc_u32(payload_spec(mv).len() as u32));
                assert(plen == payload_spec(mv).len());
            }
        }
        return Err(CodecError::FrameError);
    }
    let blen = b.len();
    let mut payload: Vec<u8> = Vec::new();
    let n = blen - 4;
    for j in 0..n
        invariant
            n == b@.len() - 4,
            blen == b@.len(),
            payload@ =~= b@.subrange(4, 4 + j),
    {
        payload.push(b[4 + j]);
        proof {
            assert(payload@ =~= b@.subrange(4, 4 + j + 1));
        }
    }
    proof {
        assert(payload@ =~= b@.subrange(4, b@.len() as int));
    }
    let r = match decode_payload(&payload) {
        Ok(m) => {
            proof {
                lemma_enc_u32_val(payload_spec(m@).len() as u32);
                assert(frame_spec(m@) =~= b@);
            }
            Ok(m)
        },
        Err(_) => {
            proof {
                lemma_enc_u32_val(plen);
                assert(prefix_val(b@) == plen);
                assert forall|mv: MessageV| encodable(mv) && frame_spec(mv) == b@ implies
                false by {
                    lemma_payload_shape(mv);
                    assert(payload_spec(mv) =~= b@.subrange(4, b@.len() as int));
                }
            }
            Err(CodecError::DecodeError)
        },
    };
    proof {
        assert forall|mv: MessageV| encodable(mv) && frame_spec(mv) == b@ implies (r matches Ok(m)
            && m@ == mv) by {
            match r {
                Ok(m) => {
                    lemma_frame_spec_injective(m@, mv);
                },
                Err(_) => {},
            }
        }
    }
    r
}

/// The value of a four-byte length prefix, for the I/O layer's framing
/// loop: it reads four bytes, then exactly that many payload bytes.
pub fn read_len_prefix(b: &Vec<u8>) -> (r: Result<u32, CodecError>)
    ensures
        b@.len() >= 4 ==> (r matches Ok(v) && v == prefix_val(b@)),
        b@.len() < 4 ==> r == Err::<u32, CodecError>(CodecError::FrameError),
{
    if b.len() < 4 {
        return Err(CodecError::FrameError);
    }
    Ok(read_u32(b, 0))
}

} // verus!
