//! Session logic of the control channel: request-id generation, the
//! authentication check, framing of outgoing packets, and reassembly of
//! fragmented responses.
//!
//! The transport itself (opening the socket, reading and writing bytes,
//! the idle timeout clock) lives outside the library; these functions decide
//! everything the protocol decides, given the bytes and packets that arrived.
use crate::packet::{spec_encode, PacketKind, Packet, SpecPacket};
use crate::packet::encode;
use crate::RconError;
use vstd::prelude::*;
use vstd::string::StringSliceAdditionalSpecFns;

verus! {

/// A server endpoint for the control channel. Each operation opens a fresh
/// connection to it; no session state survives a call.
#[derive(Debug)]
pub struct PalworldRCON {
    /// Server hostname or IP address.
    pub host: String,
    /// Server port for the control channel.
    pub port: u16,
    /// Control-channel password.
    pub password: String,
}

impl PalworldRCON {
    /// A new endpoint with exactly the given coordinates.
    pub fn new(host: &str, port: u16, password: &str) -> (r: Self)
        ensures
            r.host@ == host@,
            r.port == port,
            r.password@ == password@,
    {
        PalworldRCON { host: String::from_str(host), port, password: String::from_str(password) }
    }

    /// A new endpoint that falls back to `DEFAULT_SOURCE_PORT` when no port
    /// is given.
    pub fn new_with_default_port(host: &str, port: Option<u16>, password: &str) -> (r: Self)
        ensures
            r.host@ == host@,
            r.port == (match port {
                Some(p) => p,
                None => crate::DEFAULT_SOURCE_PORT,
            }),
            r.password@ == password@,
    {
        let p = match port {
            Some(p) => p,
            None => crate::DEFAULT_SOURCE_PORT,
        };
        PalworldRCON::new(host, p, password)
    }
}

/// The request id that follows `id`: monotonically increasing, wrapping at
/// the signed 32-bit range, and never -1 (which the server reserves for
/// signalling authentication failure).
pub open spec fn spec_next_id(id: i32) -> i32 {
    if id == i32::MAX {
        i32::MIN
    } else if id == -2 {
        0
    } else {
        (id + 1) as i32
    }
}

pub fn next_request_id(id: i32) -> (r: i32)
    ensures
        r == spec_next_id(id),
        r != -1,
{
    if id == i32::MAX {
        i32::MIN
    } else if id == -2 {
        0
    } else {
        id + 1
    }
}

/// Classifies the packet the server echoes after an authentication attempt:
/// an echoed id of -1 is an authentication failure, and nothing else is.
pub fn check_auth_response(p: &Packet) -> (r: Result<(), RconError>)
    ensures
        r is Ok <==> p@.id != -1,
        r is Err ==> r->Err_0 == RconError::Authentication,
{
    if p.id == -1 {
        Err(RconError::Authentication)
    } else {
        Ok(())
    }
}

/// The encoded authentication packet for `id` and `password`, or `None` when
/// the password is too long for the frame's signed 32-bit length field.
pub fn auth_packet(id: i32, password: &str) -> (r: Option<Vec<u8>>)
    ensures
        r is Some <==> password.spec_bytes().len() + 10 <= i32::MAX,
        r matches Some(b) ==> b@ == spec_encode(
            SpecPacket { id, kind: PacketKind::Auth, body: password.spec_bytes() },
        ),
{
    let body = password.as_bytes_vec();
    if body.len() > (i32::MAX - 10) as usize {
        return None;
    }
    Some(encode(id, PacketKind::Auth, &body))
}

/// The encoded command packet for `id` and `cmd`, or `None` when the command
/// is too long for the frame's signed 32-bit length field.
pub fn command_packet(id: i32, cmd: &str) -> (r: Option<Vec<u8>>)
    ensures
        r is Some <==> cmd.spec_bytes().len() + 10 <= i32::MAX,
        r matches Some(b) ==> b@ == spec_encode(
            SpecPacket { id, kind: PacketKind::ExecCommand, body: cmd.spec_bytes() },
        ),
{
    let body = cmd.as_bytes_vec();
    if body.len() > (i32::MAX - 10) as usize {
        return None;
    }
    Some(encode(id, PacketKind::ExecCommand, &body))
}

/// Response-collection policy: some server builds fragment one logical
/// response over several packets, others answer with a single packet.
#[derive(Clone, Copy, Debug, PartialEq, Eq, Structural)]
pub enum ReassemblyMode {
    /// Concatenate the bodies of packets echoing the request id until an
    /// empty-body packet with that id arrives or the idle timeout elapses.
    Quirks,
    /// The first packet echoing the request id is the whole response.
    Single,
}

/// Incremental reassembly of one response. The caller feeds in each decoded
/// packet as it arrives, and reports the idle timeout; `done` says when the
/// response is complete.
#[derive(Debug)]
pub struct Reassembly {
    /// Collection policy.
    pub mode: ReassemblyMode,
    /// The request id the response packets must echo.
    pub id: i32,
    /// Body bytes collected so far.
    pub collected: Vec<u8>,
    /// The response is complete; no further packet is read.
    pub done: bool,
}

impl Reassembly {
    /// Starts collecting the response to request `id`.
    pub fn new(mode: ReassemblyMode, id: i32) -> (r: Self)
        ensures
            r.mode == mode,
            r.id == id,
            r.collected@ == Seq::<u8>::empty(),
            !r.done,
    {
        Reassembly { mode, id, collected: Vec::new(), done: false }
    }

    /// Feeds one received packet in. A packet echoing another id is ignored;
    /// a matching packet contributes its body; in `Quirks` mode an
    /// empty-body matching packet ends the response, in `Single` mode the
    /// first matching packet does.
    pub fn step(&mut self, p: &Packet)
        requires
            !old(self).done,
        ensures
            final(self).mode == old(self).mode,
            final(self).id == old(self).id,
            final(self).collected@ == (if p@.id == old(self).id {
                old(self).collected@ + p@.body
            } else {
                old(self).collected@
            }),
            final(self).done == (p@.id == old(self).id && (old(self).mode
                == ReassemblyMode::Single || p@.body.len() == 0)),
    {
        if p.id == self.id {
            self.collected.extend_from_slice(p.body.as_slice());
            let is_end = match self.mode {
                ReassemblyMode::Single => true,
                ReassemblyMode::Quirks => p.body.len() == 0,
            };
            if is_end {
                self.done = true;
            }
        }
    }

    /// Reports that the idle timeout elapsed with no further packet: the
    /// response is complete as collected.
    pub fn finish_on_idle(&mut self)
        requires
            !old(self).done,
        ensures
            final(self).mode == old(self).mode,
            final(self).id == old(self).id,
            final(self).collected@ == old(self).collected@,
            final(self).done,
    {
        self.done = true;
    }
}

/// The text that quirks-mode reassembly yields from the packets of one
/// response, in arrival order: the concatenated bodies of the packets
/// echoing `id`, up to (and not including) the first empty-body packet
/// echoing `id`.
pub open spec fn spec_quirks_concat(id: i32, ps: Seq<SpecPacket>) -> Seq<u8>
    decreases ps.len(),
{
    if ps.len() == 0 {
        Seq::empty()
    } else {
        let p = ps[0];
        if p.id == id && p.body.len() == 0 {
            Seq::empty()
        } else if p.id == id {
            p.body + spec_quirks_concat(id, ps.drop_first())
        } else {
            spec_quirks_concat(id, ps.drop_first())
        }
    }
}

/// Quirks-mode reassembly of a complete arrival sequence, as
/// `spec_quirks_concat` describes.
pub fn collect_quirks(id: i32, ps: &Vec<Packet>) -> (r: Vec<u8>)
    ensures
        r@ == spec_quirks_concat(id, ps.deep_view()),
{
    let ghost whole = ps.deep_view();
    let mut rsm = Reassembly::new(ReassemblyMode::Quirks, id);
    let mut i: usize = 0;
    proof {
        assert(whole.skip(0) =~= whole);
        assert(Seq::<u8>::empty() + spec_quirks_concat(id, whole) =~= spec_quirks_concat(
            id,
            whole,
        ));
    }
    while i < ps.len() && !rsm.done
        invariant
            0 <= i <= ps.len(),
            whole == ps.deep_view(),
            whole.len() == ps.len(),
            rsm.id == id,
            rsm.mode == ReassemblyMode::Quirks,
            !rsm.done ==> spec_quirks_concat(id, whole) == rsm.collected@ + spec_quirks_concat(
                id,
                whole.skip(i as int),
            ),
            rsm.done ==> spec_quirks_concat(id, whole) == rsm.collected@,
        decreases ps.len() - i,
    {
        proof {
            assert(whole.skip(i as int)[0] == whole[i as int]);
            assert(whole.skip(i as int).drop_first() =~= whole.skip(i + 1));
            assert(ps.deep_view()[i as int] == ps[i as int].deep_view());
        }
        rsm.step(&ps[i]);
        i = i + 1;
    }
    proof {
        if !rsm.done {
            assert(whole.skip(ps.len() as int) =~= Seq::<SpecPacket>::empty());
        }
    }
    rsm.collected
}

/// The response pipeline is a pure function of what arrived: two executions
/// of the same request that receive equal packet sequences reassemble equal
/// response text. What remains for idempotence of a repeated command is the
/// server's own stability, which is outside the library.
pub proof fn lemma_reassembly_deterministic(id: i32, ps1: Seq<SpecPacket>, ps2: Seq<SpecPacket>)
    requires
        ps1 == ps2,
    ensures
        spec_quirks_concat(id, ps1) == spec_quirks_concat(id, ps2),
{
}

/// Relies on String::from_utf8: it succeeds exactly on valid UTF-8 input and
/// returns the string that those bytes encode.
#[verifier::external_body]
fn bytes_to_string(v: Vec<u8>) -> (r: Option<String>)
    ensures
        r is Some <==> vstd::utf8::valid_utf8(v@),
        r matches Some(s) ==> vstd::utf8::encode_utf8(s@) == v@,
{
    match String::from_utf8(v) {
        Ok(s) => Some(s),
        Err(_) => None,
    }
}

/// Decodes reassembled response bytes as text; bytes that are not valid
/// UTF-8 are a protocol error.
pub fn response_text(bytes: Vec<u8>) -> (r: Result<String, RconError>)
    ensures
        r is Ok <==> vstd::utf8::valid_utf8(bytes@),
        r matches Ok(s) ==> vstd::utf8::encode_utf8(s@) == bytes@,
        r matches Err(e) ==> e == RconError::Protocol,
{
    match bytes_to_string(bytes) {
        Some(s) => Ok(s),
        None => Err(RconError::Protocol),
    }
}

} // verus!
