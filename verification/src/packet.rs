//! Wire-frame codec of the control protocol.
//!
//! A frame is `length | id | kind | body | 0x00 0x00`, where `length`, `id`
//! and `kind` are 32-bit little-endian words and `length` counts everything
//! after itself. The decoder rejects frames whose declared length is
//! implausible (below the fixed overhead or above 4096 bytes).
use crate::RconError;
use vstd::prelude::*;

verus! {

/// The packet kinds of the protocol. `Auth` and `AuthResponse` share the wire
/// code 3, so a decoded code 3 always reads as `AuthResponse` (the direction
/// in which this client ever decodes it).
#[derive(Clone, Copy, Debug, PartialEq, Eq, Structural)]
pub enum PacketKind {
    Auth,
    AuthResponse,
    ExecCommand,
    ResponseValue,
}

/// Wire code of a packet kind.
pub open spec fn kind_code(k: PacketKind) -> int {
    match k {
        PacketKind::Auth => 3,
        PacketKind::AuthResponse => 3,
        PacketKind::ExecCommand => 2,
        PacketKind::ResponseValue => 0,
    }
}

/// Packet kind decoded from a wire code.
pub open spec fn kind_of_code(v: int) -> Option<PacketKind> {
    if v == 3 {
        Some(PacketKind::AuthResponse)
    } else if v == 2 {
        Some(PacketKind::ExecCommand)
    } else if v == 0 {
        Some(PacketKind::ResponseValue)
    } else {
        None
    }
}

/// One protocol packet; the length prefix is derived at encoding time.
#[derive(Debug)]
pub struct Packet {
    /// Request id; echoed by the server, -1 echoes an authentication failure.
    pub id: i32,
    /// Packet kind.
    pub kind: PacketKind,
    /// Payload bytes (response text is UTF-8 in practice).
    pub body: Vec<u8>,
}

/// Mathematical image of a `Packet`.
pub struct SpecPacket {
    pub id: i32,
    pub kind: PacketKind,
    pub body: Seq<u8>,
}

impl View for Packet {
    type V = SpecPacket;

    open spec fn view(&self) -> SpecPacket {
        SpecPacket { id: self.id, kind: self.kind, body: self.body@ }
    }
}

impl DeepView for Packet {
    type V = SpecPacket;

    open spec fn deep_view(&self) -> SpecPacket {
        self.view()
    }
}

/// The unsigned 32-bit representation of a request id.
pub open spec fn id_repr(id: i32) -> int {
    if id >= 0 {
        id as int
    } else {
        id as int + 0x1_0000_0000
    }
}

/// The request id read back from its unsigned 32-bit representation.
pub open spec fn id_from_repr(n: int) -> i32 {
    if n < 0x8000_0000 {
        n as i32
    } else {
        (n - 0x1_0000_0000) as i32
    }
}

/// Little-endian bytes of a 32-bit word value.
pub open spec fn le4(n: int) -> Seq<u8> {
    seq![
        (n % 256) as u8,
        ((n / 256) % 256) as u8,
        ((n / 65536) % 256) as u8,
        ((n / 16777216) % 256) as u8,
    ]
}

/// Value of four little-endian bytes.
pub open spec fn le4_val(b: Seq<u8>) -> int {
    b[0] + b[1] * 256 + b[2] * 65536 + b[3] * 16777216
}

pub proof fn lemma_le4_roundtrip(n: int)
    requires
        0 <= n < 0x1_0000_0000,
    ensures
        le4_val(le4(n)) == n,
{
    vstd::arithmetic::div_mod::lemma_fundamental_div_mod(n, 256);
    vstd::arithmetic::div_mod::lemma_fundamental_div_mod(n / 256, 256);
    vstd::arithmetic::div_mod::lemma_fundamental_div_mod(n / 65536, 256);
    vstd::arithmetic::div_mod::lemma_div_denominator(n, 256, 256);
    vstd::arithmetic::div_mod::lemma_div_denominator(n, 65536, 256);
    vstd::arithmetic::div_mod::lemma_mod_division_less_than_divisor(n, 256);
    vstd::arithmetic::div_mod::lemma_mod_division_less_than_divisor(n / 256, 256);
    vstd::arithmetic::div_mod::lemma_mod_division_less_than_divisor(n / 65536, 256);
    vstd::arithmetic::div_mod::lemma_div_pos_is_pos(n, 256);
    vstd::arithmetic::div_mod::lemma_div_pos_is_pos(n / 256, 256);
    vstd::arithmetic::div_mod::lemma_div_pos_is_pos(n / 65536, 256);
    vstd::arithmetic::div_mod::lemma_multiply_divide_lt(n, 16777216, 256);
    vstd::arithmetic::div_mod::lemma_small_mod((n / 16777216) as nat, 256);
}

/// The encoded frame of a packet.
pub open spec fn spec_encode(p: SpecPacket) -> Seq<u8> {
    le4(p.body.len() as int + 10) + le4(id_repr(p.id)) + le4(kind_code(p.kind)) + p.body + seq![
        0u8,
        0u8,
    ]
}

/// Declared length of the frame at the head of `b` (meaningful once four
/// bytes are present).
pub open spec fn declared_len(b: Seq<u8>) -> int {
    le4_val(b.subrange(0, 4))
}

/// The declared length is within the protocol's plausible range.
pub open spec fn len_plausible(b: Seq<u8>) -> bool {
    10 <= declared_len(b) <= 4096
}

/// More bytes must arrive before the frame at the head of `b` is complete.
pub open spec fn needs_more(b: Seq<u8>) -> bool {
    b.len() < 4 || (len_plausible(b) && b.len() < declared_len(b) + 4)
}

/// The declared length is implausible, which no further bytes can mend.
pub open spec fn framing_bad(b: Seq<u8>) -> bool {
    b.len() >= 4 && !len_plausible(b)
}

/// The packet at the head of `b`, with the byte count it occupies, when a
/// complete plausible frame is present and well formed.
pub open spec fn spec_decode(b: Seq<u8>) -> Option<(SpecPacket, int)> {
    if b.len() < 4 {
        None
    } else {
        let l = declared_len(b);
        if !(10 <= l <= 4096) {
            None
        } else if b.len() < l + 4 {
            None
        } else {
            match kind_of_code(le4_val(b.subrange(8, 12))) {
                None => None,
                Some(k) => if b[l + 2] == 0 && b[l + 3] == 0 {
                    Some(
                        (
                            SpecPacket {
                                id: id_from_repr(le4_val(b.subrange(4, 8))),
                                kind: k,
                                body: b.subrange(12, l + 2),
                            },
                            l + 4,
                        ),
                    )
                } else {
                    None
                },
            }
        }
    }
}

fn id_to_code(id: i32) -> (r: u32)
    ensures
        r as int == id_repr(id),
{
    if id >= 0 {
        id as u32
    } else {
        ((id as i64) + 0x1_0000_0000) as u32
    }
}

fn code_to_id(u: u32) -> (r: i32)
    ensures
        r == id_from_repr(u as int),
{
    if u <= 0x7FFF_FFFF {
        u as i32
    } else {
        ((u as i64) - 0x1_0000_0000) as i32
    }
}

fn push_le4(out: &mut Vec<u8>, n: u32)
    ensures
        final(out)@ == old(out)@ + le4(n as int),
{
    out.push((n % 256) as u8);
    out.push(((n / 256) % 256) as u8);
    out.push(((n / 65536) % 256) as u8);
    out.push(((n / 16777216) % 256) as u8);
    proof {
        assert(out@ =~= old(out)@ + le4(n as int));
    }
}

fn read_le4(buf: &Vec<u8>, at: usize) -> (r: u32)
    requires
        at + 4 <= buf@.len(),
    ensures
        r as int == le4_val(buf@.subrange(at as int, at + 4)),
{
    let n = buf.len();
    assert(at + 4 <= n);
    let b0: u32 = buf[at] as u32;
    let b1: u32 = buf[at + 1] as u32;
    let b2: u32 = buf[at + 2] as u32;
    let b3: u32 = buf[at + 3] as u32;
    b0 + b1 * 256 + b2 * 65536 + b3 * 16777216
}

fn kind_code_exec(k: PacketKind) -> (r: u32)
    ensures
        r as int == kind_code(k),
{
    match k {
        PacketKind::Auth => 3,
        PacketKind::AuthResponse => 3,
        PacketKind::ExecCommand => 2,
        PacketKind::ResponseValue => 0,
    }
}

/// Encodes a packet into its wire frame: length prefix, id, kind, body, and
/// the two terminator bytes. The length field must fit the protocol's signed
/// 32-bit word, which bounds the body.
pub fn encode(id: i32, kind: PacketKind, body: &Vec<u8>) -> (r: Vec<u8>)
    requires
        body@.len() + 10 <= i32::MAX,
    ensures
        r@ == spec_encode(SpecPacket { id, kind, body: body@ }),
{
    let mut out: Vec<u8> = Vec::new();
    push_le4(&mut out, (body.len() + 10) as u32);
    push_le4(&mut out, id_to_code(id));
    push_le4(&mut out, kind_code_exec(kind));
    out.extend_from_slice(body.as_slice());
    out.push(0);
    out.push(0);
    proof {
        assert(out@ =~= spec_encode(SpecPacket { id, kind, body: body@ }));
    }
    out
}

/// Decodes the frame at the head of `buf`.
///
/// `Ok(Some((p, n)))` returns the packet and the `n` bytes it occupied;
/// `Ok(None)` means the buffer holds only a prefix of a plausible frame and
/// more bytes must be read; `Err(Framing)` an implausible declared length;
/// `Err(Protocol)` a complete frame with an unknown kind code or missing
/// terminator bytes.
pub fn decode_frame(buf: &Vec<u8>) -> (r: Result<Option<(Packet, usize)>, RconError>)
    ensures
        match r {
            Ok(Some((p, n))) => spec_decode(buf@) == Some((p@, n as int)),
            Ok(None) => needs_more(buf@),
            Err(e) => {
                &&& spec_decode(buf@) is None
                &&& !needs_more(buf@)
                &&& (e == RconError::Framing <==> framing_bad(buf@))
                &&& (e == RconError::Framing || e == RconError::Protocol)
            },
        },
{
    if buf.len() < 4 {
        return Ok(None);
    }
    let l_u = read_le4(buf, 0);
    if l_u < 10 || l_u > 4096 {
        return Err(RconError::Framing);
    }
    let l = l_u as usize;
    if buf.len() < l + 4 {
        return Ok(None);
    }
    let idv = read_le4(buf, 4);
    let id = code_to_id(idv);
    let kv = read_le4(buf, 8);
    let kind = if kv == 3 {
        PacketKind::AuthResponse
    } else if kv == 2 {
        PacketKind::ExecCommand
    } else if kv == 0 {
        PacketKind::ResponseValue
    } else {
        return Err(RconError::Protocol);
    };
    if buf[l + 2] != 0 || buf[l + 3] != 0 {
        return Err(RconError::Protocol);
    }
    let mut body: Vec<u8> = Vec::new();
    let mut i: usize = 12;
    while i < l + 2
        invariant
            12 <= i <= l + 2,
            l <= 4096,
            l + 4 <= buf@.len(),
            buf@.len() <= usize::MAX,
            body@ == buf@.subrange(12, i as int),
        decreases l + 2 - i,
    {
        body.push(buf[i]);
        proof {
            assert(body@ =~= buf@.subrange(12, i + 1));
        }
        i = i + 1;
    }
    let p = Packet { id, kind, body };
    proof {
        assert(spec_decode(buf@) == Some((p@, l + 4 as int)));
    }
    Ok(Some((p, l + 4)))
}

/// Round trip: decoding an encoded frame yields the identical id, kind and
/// body, and consumes exactly the frame. `Auth` is left out: it shares its
/// wire code with `AuthResponse`, which is what a decoded code 3 reads as.
pub proof fn lemma_encode_decode(p: SpecPacket)
    requires
        p.body.len() + 10 <= 4096,
        p.kind != PacketKind::Auth,
    ensures
        spec_decode(spec_encode(p)) == Some((p, p.body.len() as int + 14)),
{
    let b = spec_encode(p);
    let l = p.body.len() + 10;
    assert(b.len() == l + 4);
    assert(b.subrange(0, 4) =~= le4(l as int));
    lemma_le4_roundtrip(l as int);
    assert(declared_len(b) == l);
    assert(b.subrange(4, 8) =~= le4(id_repr(p.id)));
    lemma_le4_roundtrip(id_repr(p.id));
    assert(id_from_repr(id_repr(p.id)) == p.id);
    assert(b.subrange(8, 12) =~= le4(kind_code(p.kind)));
    lemma_le4_roundtrip(kind_code(p.kind));
    assert(kind_of_code(kind_code(p.kind)) == Some(p.kind));
    assert(b.subrange(12, l as int + 2) =~= p.body);
    assert(b[l as int + 2] == 0);
    assert(b[l as int + 3] == 0);
}

} // verus!
