//! The wire encoding of packets: a fixed binary layout with little-endian integers, a
//! four-byte variant tag before each enum's payload, and text as an eight-byte length
//! followed by its UTF-8 bytes. A buffer holds exactly one packet.
use vstd::prelude::*;
use vstd::utf8::*;
use vstd::string::*;
use crate::network::{
    ClientInitialData, EntityState, Error, ErrorKind, Input, NetworkId, PacketType, PacketView,
};

verus! {

broadcast use vstd::utf8::encode_utf8_decode_utf8, vstd::utf8::encode_utf8_valid_utf8, vstd::utf8::decode_utf8_encode_utf8;

/// The four bytes of a 32-bit integer, least significant first.
pub open spec fn u32_le(v: u32) -> Seq<u8> {
    seq![
        (v & 0xff) as u8,
        ((v >> 8u32) & 0xff) as u8,
        ((v >> 16u32) & 0xff) as u8,
        ((v >> 24u32) & 0xff) as u8,
    ]
}

/// The eight bytes of a 64-bit integer, least significant first.
pub open spec fn u64_le(v: u64) -> Seq<u8> {
    u32_le((v & 0xffff_ffff) as u32) + u32_le((v >> 32u64) as u32)
}

/// The 32-bit integer held in `b[i..i + 4]`, least significant byte first.
pub open spec fn le_u32_at(b: Seq<u8>, i: int) -> u32 {
    (b[i] as u32) | ((b[i + 1] as u32) << 8u32) | ((b[i + 2] as u32) << 16u32) | ((b[i + 3] as u32)
        << 24u32)
}

/// The 64-bit integer held in `b[i..i + 8]`, least significant byte first.
pub open spec fn le_u64_at(b: Seq<u8>, i: int) -> u64 {
    (le_u32_at(b, i) as u64) | ((le_u32_at(b, i + 4) as u64) << 32u64)
}

/// Text: its UTF-8 length as a 64-bit integer, then its UTF-8 bytes.
pub open spec fn text_bytes(s: Seq<char>) -> Seq<u8> {
    u64_le(encode_utf8(s).len() as u64) + encode_utf8(s)
}

pub open spec fn error_kind_tag(k: ErrorKind) -> u32 {
    match k {
        ErrorKind::AlreadyConnected => 0,
        ErrorKind::Other => 1,
    }
}

pub open spec fn response_bytes(r: Result<ClientInitialData, Error>) -> Seq<u8> {
    match r {
        Ok(d) => u32_le(0) + u64_le(d.player_network_id),
        Err(e) => u32_le(1) + u32_le(error_kind_tag(e.error_kind)),
    }
}

pub open spec fn input_bytes(i: Input) -> Seq<u8> {
    seq![i.flags] + u32_le(i.cursor_x_bits) + u32_le(i.cursor_y_bits)
}

pub open spec fn entity_state_bytes(e: EntityState) -> Seq<u8> {
    u64_le(e.network_id.id) + u32_le(e.position_x_bits) + u32_le(e.position_y_bits) + u32_le(
        e.rotation_bits,
    )
}

/// The variant tag of a packet.
pub open spec fn packet_tag(p: PacketView) -> u32 {
    match p {
        PacketView::ConnectionRequest { .. } => 0,
        PacketView::ConnectionResponse(_) => 1,
        PacketView::InputState { .. } => 2,
        PacketView::EntityStateUpdate(_) => 3,
    }
}

/// The payload that follows the variant tag.
pub open spec fn packet_body(p: PacketView) -> Seq<u8> {
    match p {
        PacketView::ConnectionRequest { player_name } => text_bytes(player_name),
        PacketView::ConnectionResponse(r) => response_bytes(r),
        PacketView::InputState { input } => input_bytes(input),
        PacketView::EntityStateUpdate(e) => entity_state_bytes(e),
    }
}

/// The encoding of a packet.
pub open spec fn packet_bytes(p: PacketView) -> Seq<u8> {
    u32_le(packet_tag(p)) + packet_body(p)
}

/// A packet whose text fits the eight-byte length field. Every packet held in memory does.
pub open spec fn packet_fits(p: PacketView) -> bool {
    match p {
        PacketView::ConnectionRequest { player_name } => encode_utf8(player_name).len()
            <= u64::MAX,
        _ => true,
    }
}

proof fn lemma_u32_le_read(v: u32)
    ensures
        le_u32_at(u32_le(v), 0) == v,
{
    let b = u32_le(v);
    let (b0, b1, b2, b3) = (b[0], b[1], b[2], b[3]);
    assert(b0 == (v & 0xff) as u8 && b1 == ((v >> 8u32) & 0xff) as u8 && b2 == ((v >> 16u32)
        & 0xff) as u8 && b3 == ((v >> 24u32) & 0xff) as u8);
    assert((b0 == (v & 0xff) as u8 && b1 == ((v >> 8u32) & 0xff) as u8 && b2 == ((v >> 16u32)
        & 0xff) as u8 && b3 == ((v >> 24u32) & 0xff) as u8) ==> ((b0 as u32) | ((b1 as u32)
        << 8u32) | ((b2 as u32) << 16u32) | ((b3 as u32) << 24u32)) == v) by (bit_vector);
}

proof fn lemma_read_u32_le(b: Seq<u8>, i: int)
    requires
        0 <= i,
        i + 4 <= b.len(),
    ensures
        u32_le(le_u32_at(b, i)) == b.subrange(i, i + 4),
{
    let (b0, b1, b2, b3) = (b[i], b[i + 1], b[i + 2], b[i + 3]);
    let v = le_u32_at(b, i);
    assert(v == (b0 as u32) | ((b1 as u32) << 8u32) | ((b2 as u32) << 16u32) | ((b3 as u32)
        << 24u32));
    assert(v == (b0 as u32) | ((b1 as u32) << 8u32) | ((b2 as u32) << 16u32) | ((b3 as u32)
        << 24u32) ==> (v & 0xff) as u8 == b0 && ((v >> 8u32) & 0xff) as u8 == b1 && ((v
        >> 16u32) & 0xff) as u8 == b2 && ((v >> 24u32) & 0xff) as u8 == b3) by (bit_vector);
    assert(u32_le(v) =~= b.subrange(i, i + 4));
}

proof fn lemma_u64_le_read(v: u64)
    ensures
        le_u64_at(u64_le(v), 0) == v,
{
    let lo = (v & 0xffff_ffff) as u32;
    let hi = (v >> 32u64) as u32;
    lemma_u32_le_read(lo);
    lemma_u32_le_read(hi);
    let b = u64_le(v);
    assert(b.subrange(0, 4) =~= u32_le(lo));
    assert(b.subrange(4, 8) =~= u32_le(hi));
    assert(le_u32_at(b, 0) == le_u32_at(u32_le(lo), 0));
    assert(le_u32_at(b, 4) == le_u32_at(u32_le(hi), 0));
    assert(lo == (v & 0xffff_ffff) as u32 && hi == (v >> 32u64) as u32 ==> ((lo as u64) | ((
    hi as u64) << 32u64)) == v) by (bit_vector);
}

proof fn lemma_read_u64_le(b: Seq<u8>, i: int)
    requires
        0 <= i,
        i + 8 <= b.len(),
    ensures
        u64_le(le_u64_at(b, i)) == b.subrange(i, i + 8),
{
    let lo = le_u32_at(b, i);
    let hi = le_u32_at(b, i + 4);
    let v = le_u64_at(b, i);
    lemma_read_u32_le(b, i);
    lemma_read_u32_le(b, i + 4);
    assert(v == (lo as u64) | ((hi as u64) << 32u64));
    assert(v == (lo as u64) | ((hi as u64) << 32u64) ==> (v & 0xffff_ffff) as u32 == lo && (v
        >> 32u64) as u32 == hi) by (bit_vector);
    assert(u64_le(v) =~= b.subrange(i, i + 8));
}

proof fn lemma_u32_at(s: Seq<u8>, i: int, v: u32)
    requires
        0 <= i,
        i + 4 <= s.len(),
        s.subrange(i, i + 4) == u32_le(v),
    ensures
        le_u32_at(s, i) == v,
{
    lemma_u32_le_read(v);
    assert(s.subrange(i, i + 4)[0] == s[i]);
    assert(s.subrange(i, i + 4)[1] == s[i + 1]);
    assert(s.subrange(i, i + 4)[2] == s[i + 2]);
    assert(s.subrange(i, i + 4)[3] == s[i + 3]);
}

proof fn lemma_u64_at(s: Seq<u8>, i: int, v: u64)
    requires
        0 <= i,
        i + 8 <= s.len(),
        s.subrange(i, i + 8) == u64_le(v),
    ensures
        le_u64_at(s, i) == v,
{
    lemma_u64_le_read(v);
    let t = s.subrange(i, i + 8);
    assert(le_u32_at(t, 0) == le_u32_at(s, i));
    assert(le_u32_at(t, 4) == le_u32_at(s, i + 4));
}

proof fn lemma_prefix_free_request(p: PacketView, q: PacketView)
    requires
        p is ConnectionRequest,
        packet_fits(p),
        packet_tag(q) == packet_tag(p),
        packet_bytes(q).len() <= packet_bytes(p).len(),
        packet_bytes(q) == packet_bytes(p).subrange(0, packet_bytes(q).len() as int),
    ensures
        q == p,
{
    let bp = packet_bytes(p);
    let bq = packet_bytes(q);
    match p {
        PacketView::ConnectionRequest { player_name: np } => {
            let nq = match q {
                PacketView::ConnectionRequest { player_name } => player_name,
                _ => np,
            };
            let tp = encode_utf8(np);
            let tq = encode_utf8(nq);
            assert(bq.len() >= 12);
            assert(bq.subrange(4, 12) =~= u64_le(tq.len() as u64));
            assert(bp.subrange(4, 12) =~= u64_le(tp.len() as u64));
            lemma_u64_at(bq, 4, tq.len() as u64);
            lemma_u64_at(bp, 4, tp.len() as u64);
            assert(le_u64_at(bq, 4) == le_u64_at(bp, 4));
            assert(tq.len() == tp.len());
            assert(tq =~= bq.subrange(12, bq.len() as int));
            assert(tp =~= bp.subrange(12, bp.len() as int));
            assert(tq =~= tp);
            assert(decode_utf8(tq) == nq);
        },
        _ => {},
    }
}

proof fn lemma_prefix_free_response(p: PacketView, q: PacketView)
    requires
        p is ConnectionResponse,
        packet_fits(p),
        packet_tag(q) == packet_tag(p),
        packet_bytes(q).len() <= packet_bytes(p).len(),
        packet_bytes(q) == packet_bytes(p).subrange(0, packet_bytes(q).len() as int),
    ensures
        q == p,
{
    let bp = packet_bytes(p);
    let bq = packet_bytes(q);
    match p {
        PacketView::ConnectionResponse(rp) => {
            let rq = match q {
                PacketView::ConnectionResponse(r) => r,
                _ => rp,
            };
            let ip: u32 = if rp is Ok { 0 } else { 1 };
            let iq: u32 = if rq is Ok { 0 } else { 1 };
            assert(bq.len() >= 8);
            assert(bq.subrange(4, 8) =~= u32_le(iq));
            assert(bp.subrange(4, 8) =~= u32_le(ip));
            lemma_u32_at(bq, 4, iq);
            lemma_u32_at(bp, 4, ip);
            assert(le_u32_at(bq, 4) == le_u32_at(bp, 4));
            match rp {
                Ok(dp) => {
                    let dq = rq->Ok_0;
                    assert(bq.subrange(8, 16) =~= u64_le(dq.player_network_id));
                    assert(bp.subrange(8, 16) =~= u64_le(dp.player_network_id));
                    lemma_u64_at(bq, 8, dq.player_network_id);
                    lemma_u64_at(bp, 8, dp.player_network_id);
                    assert(le_u64_at(bq, 8) == le_u64_at(bp, 8));
                },
                Err(ep) => {
                    let eq = rq->Err_0;
                    assert(bq.subrange(8, 12) =~= u32_le(error_kind_tag(eq.error_kind)));
                    assert(bp.subrange(8, 12) =~= u32_le(error_kind_tag(ep.error_kind)));
                    lemma_u32_at(bq, 8, error_kind_tag(eq.error_kind));
                    lemma_u32_at(bp, 8, error_kind_tag(ep.error_kind));
                    assert(le_u32_at(bq, 8) == le_u32_at(bp, 8));
                },
            }
        },
        _ => {},
    }
}

proof fn lemma_prefix_free_input(p: PacketView, q: PacketView)
    requires
        p is InputState,
        packet_fits(p),
        packet_tag(q) == packet_tag(p),
        packet_bytes(q).len() <= packet_bytes(p).len(),
        packet_bytes(q) == packet_bytes(p).subrange(0, packet_bytes(q).len() as int),
    ensures
        q == p,
{
    let bp = packet_bytes(p);
    let bq = packet_bytes(q);
    match p {
        PacketView::InputState { input: ip } => {
            let iq = match q {
                PacketView::InputState { input } => input,
                _ => ip,
            };
            assert(bq[4] == iq.flags);
            assert(bq.subrange(5, 9) =~= u32_le(iq.cursor_x_bits));
            assert(bp.subrange(5, 9) =~= u32_le(ip.cursor_x_bits));
            assert(bq.subrange(9, 13) =~= u32_le(iq.cursor_y_bits));
            assert(bp.subrange(9, 13) =~= u32_le(ip.cursor_y_bits));
            lemma_u32_at(bq, 5, iq.cursor_x_bits);
            lemma_u32_at(bp, 5, ip.cursor_x_bits);
            lemma_u32_at(bq, 9, iq.cursor_y_bits);
            lemma_u32_at(bp, 9, ip.cursor_y_bits);
            assert(le_u32_at(bq, 5) == le_u32_at(bp, 5));
            assert(le_u32_at(bq, 9) == le_u32_at(bp, 9));
        },
        _ => {},
    }
}

proof fn lemma_prefix_free_entity(p: PacketView, q: PacketView)
    requires
        p is EntityStateUpdate,
        packet_fits(p),
        packet_tag(q) == packet_tag(p),
        packet_bytes(q).len() <= packet_bytes(p).len(),
        packet_bytes(q) == packet_bytes(p).subrange(0, packet_bytes(q).len() as int),
    ensures
        q == p,
{
    let bp = packet_bytes(p);
    let bq = packet_bytes(q);
    match p {
        PacketView::EntityStateUpdate(ep) => {
            let eq = match q {
                PacketView::EntityStateUpdate(e) => e,
                _ => ep,
            };
            assert(bq.subrange(4, 12) =~= u64_le(eq.network_id.id));
            assert(bp.subrange(4, 12) =~= u64_le(ep.network_id.id));
            lemma_u64_at(bq, 4, eq.network_id.id);
            lemma_u64_at(bp, 4, ep.network_id.id);
            assert(le_u64_at(bq, 4) == le_u64_at(bp, 4));
            assert(bq.subrange(12, 16) =~= u32_le(eq.position_x_bits));
            assert(bp.subrange(12, 16) =~= u32_le(ep.position_x_bits));
            lemma_u32_at(bq, 12, eq.position_x_bits);
            lemma_u32_at(bp, 12, ep.position_x_bits);
            assert(le_u32_at(bq, 12) == le_u32_at(bp, 12));
            assert(bq.subrange(16, 20) =~= u32_le(eq.position_y_bits));
            assert(bp.subrange(16, 20) =~= u32_le(ep.position_y_bits));
            lemma_u32_at(bq, 16, eq.position_y_bits);
            lemma_u32_at(bp, 16, ep.position_y_bits);
            assert(le_u32_at(bq, 16) == le_u32_at(bp, 16));
            assert(bq.subrange(20, 24) =~= u32_le(eq.rotation_bits));
            assert(bp.subrange(20, 24) =~= u32_le(ep.rotation_bits));
            lemma_u32_at(bq, 20, eq.rotation_bits);
            lemma_u32_at(bp, 20, ep.rotation_bits);
            assert(le_u32_at(bq, 20) == le_u32_at(bp, 20));
        },
        _ => {},
    }
}

/// The encoding is prefix-free: no packet's encoding begins with the encoding of another
/// packet, nor equals it.
pub proof fn lemma_prefix_free(p: PacketView, q: PacketView)
    requires
        packet_fits(p),
        packet_bytes(q).len() <= packet_bytes(p).len(),
        packet_bytes(q) == packet_bytes(p).subrange(0, packet_bytes(q).len() as int),
    ensures
        q == p,
{
    let bp = packet_bytes(p);
    let bq = packet_bytes(q);
    assert(bq.len() >= 4);
    assert(bq.subrange(0, 4) =~= u32_le(packet_tag(q)));
    assert(bp.subrange(0, 4) =~= u32_le(packet_tag(p)));
    lemma_u32_at(bq, 0, packet_tag(q));
    lemma_u32_at(bp, 0, packet_tag(p));
    assert(le_u32_at(bq, 0) == le_u32_at(bp, 0));
    match p {
        PacketView::ConnectionRequest { .. } => lemma_prefix_free_request(p, q),
        PacketView::ConnectionResponse(_) => lemma_prefix_free_response(p, q),
        PacketView::InputState { .. } => lemma_prefix_free_input(p, q),
        PacketView::EntityStateUpdate(_) => lemma_prefix_free_entity(p, q),
    }
}

/// Decoding the encoding of a packet gives that packet back: by the contract of `decode`
/// the decoded packet has the same encoding, and only the packet itself has it.
pub proof fn lemma_round_trip(p: PacketView, decoded: PacketView)
    requires
        packet_fits(p),
        packet_bytes(decoded) == packet_bytes(p),
    ensures
        decoded == p,
{
    assert(packet_bytes(p).subrange(0, packet_bytes(p).len() as int) =~= packet_bytes(p));
    lemma_prefix_free(p, decoded);
}

/// A buffer cut short inside the encoding of a packet is the encoding of no packet, so
/// `decode` rejects it.
pub proof fn lemma_truncated_rejected(p: PacketView, k: int)
    requires
        packet_fits(p),
        0 <= k < packet_bytes(p).len(),
    ensures
        forall|q: PacketView| packet_bytes(q) != packet_bytes(p).subrange(0, k),
{
    assert forall|q: PacketView| packet_bytes(q) != packet_bytes(p).subrange(0, k) by {
        if packet_bytes(q) == packet_bytes(p).subrange(0, k) {
            lemma_prefix_free(p, q);
        }
    }
}

/// The buffer holds no packet: it is cut short, carries an unknown tag, text that is not
/// UTF-8, or bytes after the packet.
#[derive(Clone, Copy, Debug, PartialEq, Eq, Structural)]
pub struct DecodeError;

fn push_u32(out: &mut Vec<u8>, v: u32)
    ensures
        final(out)@ == old(out)@ + u32_le(v),
{
    out.push((v & 0xff) as u8);
    out.push(((v >> 8u32) & 0xff) as u8);
    out.push(((v >> 16u32) & 0xff) as u8);
    out.push(((v >> 24u32) & 0xff) as u8);
    assert(out@ =~= old(out)@ + u32_le(v));
}

fn push_u64(out: &mut Vec<u8>, v: u64)
    ensures
        final(out)@ == old(out)@ + u64_le(v),
{
    push_u32(out, (v & 0xffff_ffff) as u32);
    push_u32(out, (v >> 32u64) as u32);
    assert(out@ =~= old(out)@ + u64_le(v));
}

fn read_u32(b: &[u8], i: usize) -> (r: u32)
    requires
        i + 4 <= b@.len(),
    ensures
        r == le_u32_at(b@, i as int),
{
    (b[i] as u32) | ((b[i + 1] as u32) << 8u32) | ((b[i + 2] as u32) << 16u32) | ((b[i + 3] as u32)
        << 24u32)
}

fn read_u64(b: &[u8], i: usize) -> (r: u64)
    requires
        i + 8 <= b@.len(),
    ensures
        r == le_u64_at(b@, i as int),
{
    let n = b.len();
    let lo = read_u32(b, i);
    let hi = read_u32(b, i + 4);
    (lo as u64) | ((hi as u64) << 32u64)
}

fn push_text(out: &mut Vec<u8>, text: &String)
    ensures
        final(out)@ == old(out)@ + text_bytes(text@),
        encode_utf8(text@).len() <= u64::MAX,
{
    let bytes = text.as_str().as_bytes();
    push_u64(out, bytes.len() as u64);
    let ghost start = out@;
    let mut k: usize = 0;
    while k < bytes.len()
        invariant
            k <= bytes@.len(),
            out@ == start + bytes@.subrange(0, k as int),
        decreases bytes@.len() - k,
    {
        out.push(bytes[k]);
        k = k + 1;
        assert(out@ =~= start + bytes@.subrange(0, k as int));
    }
    assert(bytes@.subrange(0, k as int) =~= bytes@);
}

/// Encodes a packet. Every packet has an encoding.
pub fn encode(p: &PacketType) -> (r: Vec<u8>)
    ensures
        r@ == packet_bytes(p@),
        packet_fits(p@),
{
    let mut out: Vec<u8> = Vec::new();
    match p {
        PacketType::ConnectionRequest { player_name } => {
            push_u32(&mut out, 0);
            push_text(&mut out, player_name);
        },
        PacketType::ConnectionResponse(r) => {
            push_u32(&mut out, 1);
            match r {
                Ok(d) => {
                    push_u32(&mut out, 0);
                    push_u64(&mut out, d.player_network_id);
                },
                Err(e) => {
                    push_u32(&mut out, 1);
                    match e.error_kind {
                        ErrorKind::AlreadyConnected => push_u32(&mut out, 0),
                        ErrorKind::Other => push_u32(&mut out, 1),
                    }
                },
            }
        },
        PacketType::InputState { input } => {
            push_u32(&mut out, 2);
            out.push(input.flags);
            push_u32(&mut out, input.cursor_x_bits);
            push_u32(&mut out, input.cursor_y_bits);
        },
        PacketType::EntityStateUpdate(e) => {
            push_u32(&mut out, 3);
            push_u64(&mut out, e.network_id.id);
            push_u32(&mut out, e.position_x_bits);
            push_u32(&mut out, e.position_y_bits);
            push_u32(&mut out, e.rotation_bits);
        },
    }
    assert(out@ =~= packet_bytes(p@));
    out
}

/// Relies on std::str::from_utf8: it accepts a byte slice exactly when the bytes are valid
/// UTF-8, and the text it returns is made of those bytes.
#[verifier::external_body]
fn str_from_utf8(b: &[u8]) -> (r: Option<&str>)
    ensures
        r is Some <==> valid_utf8(b@),
        r matches Some(s) ==> s.spec_bytes() == b@,
{
    std::str::from_utf8(b).ok()
}

/// The tag of every packet whose encoding `b` is.
proof fn lemma_tag_of_encoding(b: Seq<u8>)
    requires
        b.len() >= 4,
    ensures
        forall|q: PacketView| packet_bytes(q) == b ==> le_u32_at(b, 0) == packet_tag(q),
{
    assert forall|q: PacketView| packet_bytes(q) == b implies le_u32_at(b, 0) == packet_tag(q) by {
        assert(b.subrange(0, 4) =~= u32_le(packet_tag(q)));
        lemma_u32_at(b, 0, packet_tag(q));
    }
}

/// The outcome that `decode` owes on `b`.
pub open spec fn decoded_from(r: Result<PacketType, DecodeError>, b: Seq<u8>) -> bool {
    match r {
        Ok(p) => packet_bytes(p@) == b && packet_fits(p@),
        Err(_) => forall|q: PacketView| packet_bytes(q) != b,
    }
}

fn decode_request(b: &[u8]) -> (r: Result<PacketType, DecodeError>)
    requires
        b@.len() >= 4,
        le_u32_at(b@, 0) == 0,
    ensures
        decoded_from(r, b@),
{
    let n = b.len();
    proof {
        lemma_tag_of_encoding(b@);
        lemma_read_u32_le(b@, 0);
    }
    if n < 12 {
        return Err(DecodeError);
    }
    let len = read_u64(b, 4);
    let text = &b[12..n];
    proof {
        lemma_read_u64_le(b@, 4);
        assert forall|q: PacketView| packet_bytes(q) == b@ implies (match q {
            PacketView::ConnectionRequest { player_name } => len as int == encode_utf8(
                player_name,
            ).len() && text@ == encode_utf8(player_name),
            _ => false,
        }) by {
            match q {
                PacketView::ConnectionRequest { player_name } => {
                    let t = encode_utf8(player_name);
                    assert(b@.subrange(4, 12) =~= u64_le(t.len() as u64));
                    lemma_u64_at(b@, 4, t.len() as u64);
                    assert(text@ =~= t);
                },
                _ => {},
            }
        }
    }
    if len != (n - 12) as u64 {
        return Err(DecodeError);
    }
    match str_from_utf8(text) {
        Some(s) => {
            let player_name = s.to_owned();
            let p = PacketType::ConnectionRequest { player_name };
            assert(packet_bytes(p@) =~= b@);
            Ok(p)
        },
        None => Err(DecodeError),
    }
}

fn decode_response(b: &[u8]) -> (r: Result<PacketType, DecodeError>)
    requires
        b@.len() >= 4,
        le_u32_at(b@, 0) == 1,
    ensures
        decoded_from(r, b@),
{
    let n = b.len();
    proof {
        lemma_tag_of_encoding(b@);
        lemma_read_u32_le(b@, 0);
    }
    if n < 8 {
        return Err(DecodeError);
    }
    let inner = read_u32(b, 4);
    proof {
        lemma_read_u32_le(b@, 4);
        assert forall|q: PacketView| packet_bytes(q) == b@ implies (match q {
            PacketView::ConnectionResponse(Ok(d)) => inner == 0 && n == 16,
            PacketView::ConnectionResponse(Err(e)) => inner == 1 && n == 12,
            _ => false,
        }) by {
            match q {
                PacketView::ConnectionResponse(r) => {
                    let it: u32 = if r is Ok {
                        0
                    } else {
                        1
                    };
                    assert(b@.subrange(4, 8) =~= u32_le(it));
                    lemma_u32_at(b@, 4, it);
                },
                _ => {},
            }
        }
    }
    if inner == 0 && n == 16 {
        let id = read_u64(b, 8);
        let p = PacketType::ConnectionResponse(Ok(ClientInitialData { player_network_id: id }));
        proof {
            lemma_read_u64_le(b@, 8);
        }
        assert(packet_bytes(p@) =~= b@);
        Ok(p)
    } else if inner == 1 && n == 12 {
        let k = read_u32(b, 8);
        proof {
            lemma_read_u32_le(b@, 8);
            assert forall|q: PacketView| packet_bytes(q) == b@ implies (match q {
                PacketView::ConnectionResponse(Err(e)) => k == error_kind_tag(e.error_kind),
                _ => false,
            }) by {
                match q {
                    PacketView::ConnectionResponse(Err(e)) => {
                        assert(b@.subrange(8, 12) =~= u32_le(error_kind_tag(e.error_kind)));
                        lemma_u32_at(b@, 8, error_kind_tag(e.error_kind));
                    },
                    _ => {},
                }
            }
        }
        let kind = if k == 0 {
            ErrorKind::AlreadyConnected
        } else if k == 1 {
            ErrorKind::Other
        } else {
            return Err(DecodeError);
        };
        let p = PacketType::ConnectionResponse(Err(Error { error_kind: kind }));
        assert(packet_bytes(p@) =~= b@);
        Ok(p)
    } else {
        Err(DecodeError)
    }
}

fn decode_input(b: &[u8]) -> (r: Result<PacketType, DecodeError>)
    requires
        b@.len() >= 4,
        le_u32_at(b@, 0) == 2,
    ensures
        decoded_from(r, b@),
{
    proof {
        lemma_tag_of_encoding(b@);
        lemma_read_u32_le(b@, 0);
    }
    if b.len() != 13 {
        return Err(DecodeError);
    }
    let input = Input { flags: b[4], cursor_x_bits: read_u32(b, 5), cursor_y_bits: read_u32(b, 9) };
    proof {
        lemma_read_u32_le(b@, 5);
        lemma_read_u32_le(b@, 9);
    }
    let p = PacketType::InputState { input };
    assert(packet_bytes(p@) =~= b@);
    Ok(p)
}

fn decode_entity_state(b: &[u8]) -> (r: Result<PacketType, DecodeError>)
    requires
        b@.len() >= 4,
        le_u32_at(b@, 0) == 3,
    ensures
        decoded_from(r, b@),
{
    proof {
        lemma_tag_of_encoding(b@);
        lemma_read_u32_le(b@, 0);
    }
    if b.len() != 24 {
        return Err(DecodeError);
    }
    let e = EntityState {
        network_id: NetworkId { id: read_u64(b, 4) },
        position_x_bits: read_u32(b, 12),
        position_y_bits: read_u32(b, 16),
        rotation_bits: read_u32(b, 20),
    };
    proof {
        lemma_read_u64_le(b@, 4);
        lemma_read_u32_le(b@, 12);
        lemma_read_u32_le(b@, 16);
        lemma_read_u32_le(b@, 20);
    }
    let p = PacketType::EntityStateUpdate(e);
    assert(packet_bytes(p@) =~= b@);
    Ok(p)
}

/// Decodes a packet. It succeeds exactly on the encodings of packets, and gives back the
/// packet whose encoding the buffer is.
pub fn decode(b: &[u8]) -> (r: Result<PacketType, DecodeError>)
    ensures
        match r {
            Ok(p) => packet_bytes(p@) == b@ && packet_fits(p@),
            Err(_) => forall|q: PacketView| packet_bytes(q) != b@,
        },
{
    if b.len() < 4 {
        return Err(DecodeError);
    }
    proof {
        lemma_tag_of_encoding(b@);
    }
    let tag = read_u32(b, 0);
    if tag == 0 {
        decode_request(b)
    } else if tag == 1 {
        decode_response(b)
    } else if tag == 2 {
        decode_input(b)
    } else if tag == 3 {
        decode_entity_state(b)
    } else {
        Err(DecodeError)
    }
}

} // verus!
