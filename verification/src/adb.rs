//! The ADB framing transport: the 24-byte little-endian frame header, its
//! codec, and the session state machines (connect handshake and the
//! simple-command micro-session) that decide what to send for each frame
//! received. The embedding program moves the bytes over the USB bulk
//! endpoints.

use vstd::bytes::lemma_auto_spec_u32_to_from_le_bytes;
use vstd::bytes::spec_u32_from_le_bytes;
use vstd::bytes::spec_u32_to_le_bytes;
use vstd::bytes::u32_from_le_bytes;
use vstd::bytes::u32_to_le_bytes;
use vstd::prelude::*;
use vstd::string::StrSliceExecFns;
use vstd::string::StringExecFns;
use vstd::string::StringSliceAdditionalSpecFns;

use crate::errors::Error;

verus! {

pub const ADB_CONNECT: u32 = 0x4E584E43;

pub const ADB_OPEN: u32 = 0x4E45504F;

pub const ADB_OKAY: u32 = 0x59414B4F;

pub const ADB_WRTE: u32 = 0x45545257;

pub const ADB_CLSE: u32 = 0x45534C43;

/// Largest payload a frame may carry: 1 MiB.
pub const ADB_MAX_DATA: u32 = 1024 * 1024;

/// The 24-byte frame header. `checksum` is sent as zero and ignored on
/// receive; `magic` must be the command word with all bits flipped.
#[derive(Clone, Copy, Debug, PartialEq, Eq, Structural)]
pub struct AdbPacket {
    pub cmd: u32,
    pub arg0: u32,
    pub arg1: u32,
    pub len: u32,
    pub checksum: u32,
    pub magic: u32,
}

impl AdbPacket {
    /// A header the decoder accepts: the magic matches the command and the
    /// payload length is in bounds.
    pub open spec fn wf(self) -> bool {
        &&& self.magic == self.cmd ^ 0xffffffffu32
        &&& self.len <= ADB_MAX_DATA
    }

    /// A header with the magic derived from `cmd` and a zero checksum.
    pub fn new(cmd: u32, arg0: u32, arg1: u32, len: u32) -> (r: Self)
        ensures
            r == (AdbPacket { cmd, arg0, arg1, len, checksum: 0u32, magic: cmd ^ 0xffffffffu32 }),
    {
        AdbPacket { cmd, arg0, arg1, len, checksum: 0, magic: cmd ^ 0xffffffff }
    }
}

/// The 24 bytes of a header on the wire: six u32 words, little-endian.
pub open spec fn spec_encode_header(p: AdbPacket) -> Seq<u8> {
    spec_u32_to_le_bytes(p.cmd) + spec_u32_to_le_bytes(p.arg0) + spec_u32_to_le_bytes(p.arg1)
        + spec_u32_to_le_bytes(p.len) + spec_u32_to_le_bytes(p.checksum) + spec_u32_to_le_bytes(
        p.magic,
    )
}

/// The six header fields read from 24 wire bytes, before validation.
pub open spec fn spec_header_fields(s: Seq<u8>) -> AdbPacket {
    AdbPacket {
        cmd: spec_u32_from_le_bytes(s.subrange(0, 4)),
        arg0: spec_u32_from_le_bytes(s.subrange(4, 8)),
        arg1: spec_u32_from_le_bytes(s.subrange(8, 12)),
        len: spec_u32_from_le_bytes(s.subrange(12, 16)),
        checksum: spec_u32_from_le_bytes(s.subrange(16, 20)),
        magic: spec_u32_from_le_bytes(s.subrange(20, 24)),
    }
}

/// Serialize a header to its 24 wire bytes.
pub fn encode_header(pkt: &AdbPacket) -> (r: Vec<u8>)
    ensures
        r@ == spec_encode_header(*pkt),
        r@.len() == 24,
{
    let mut out = u32_to_le_bytes(pkt.cmd);
    let mut b = u32_to_le_bytes(pkt.arg0);
    out.append(&mut b);
    let mut b = u32_to_le_bytes(pkt.arg1);
    out.append(&mut b);
    let mut b = u32_to_le_bytes(pkt.len);
    out.append(&mut b);
    let mut b = u32_to_le_bytes(pkt.checksum);
    out.append(&mut b);
    let mut b = u32_to_le_bytes(pkt.magic);
    out.append(&mut b);
    out
}

/// Deserialize and validate 24 wire bytes. Fails exactly when the magic
/// does not match the command or the payload length exceeds `ADB_MAX_DATA`;
/// the command itself is not sanity-checked, so unknown commands surface to
/// the session layer.
pub fn decode_header(buf: &[u8]) -> (r: Result<AdbPacket, Error>)
    requires
        buf@.len() == 24,
    ensures
        r is Ok <==> spec_header_fields(buf@).wf(),
        r matches Ok(p) ==> p == spec_header_fields(buf@),
        spec_header_fields(buf@).magic != spec_header_fields(buf@).cmd ^ 0xffffffffu32
            ==> (r matches Err(Error::Protocol(m)) && m@ == "magic mismatch"@),
        spec_header_fields(buf@).magic == spec_header_fields(buf@).cmd ^ 0xffffffffu32
            && spec_header_fields(buf@).len > ADB_MAX_DATA ==> (r matches Err(
            Error::Protocol(m),
        ) && m@ == "payload too large"@),
{
    let cmd = u32_from_le_bytes(&buf[0..4]);
    let arg0 = u32_from_le_bytes(&buf[4..8]);
    let arg1 = u32_from_le_bytes(&buf[8..12]);
    let len = u32_from_le_bytes(&buf[12..16]);
    let checksum = u32_from_le_bytes(&buf[16..20]);
    let magic = u32_from_le_bytes(&buf[20..24]);
    if magic != cmd ^ 0xffffffff {
        return Err(Error::Protocol(String::from_str("magic mismatch")));
    }
    if len > ADB_MAX_DATA {
        return Err(Error::Protocol(String::from_str("payload too large")));
    }
    Ok(AdbPacket { cmd, arg0, arg1, len, checksum, magic })
}

/// Where a simple-command session stands.
#[derive(Debug, Clone, Copy, PartialEq, Eq, Structural)]
pub enum SessionPhase {
    /// The OPEN frame went out; waiting for the device's first frame.
    AwaitReply,
    /// The device acknowledged the open; its first frame carried these
    /// args, which the OKAY echo will use. Waiting for the data frame.
    AwaitData { arg0: u32, arg1: u32 },
    /// The data was acknowledged; waiting for the closing frame.
    AwaitClose,
    /// The closing frame arrived; the reply is complete.
    Done,
}

/// What the embedding program must do after handing a frame to a session.
#[derive(Debug, Clone, Copy, PartialEq, Eq, Structural)]
pub enum SessionAction {
    /// Receive another frame.
    Recv,
    /// Send an empty OKAY frame with these args, then receive another
    /// frame.
    SendOkayThenRecv { arg0: u32, arg1: u32 },
    /// The session is over.
    Finished,
}

/// One simple-command micro-session: OPEN out, then (OKAY)? WRTE in, an
/// OKAY echo out, and a closing frame in. The device firmware speaks a
/// strictly request/response dialect, so the session is synchronous and
/// carries no state across calls.
#[derive(Debug, Clone, PartialEq, Eq)]
pub struct SimpleCommandSession {
    pub phase: SessionPhase,
    pub data: Vec<u8>,
}

impl SimpleCommandSession {
    /// Begin a session: the OPEN frame to send, with the literal command
    /// text as its payload (no NUL is appended here, unlike the connect
    /// banner and the sideload open payload).
    pub fn start(cmd: &str) -> (r: (SimpleCommandSession, AdbPacket, Vec<u8>))
        requires
            cmd.spec_bytes().len() <= u32::MAX,
        ensures
            r.0.phase == SessionPhase::AwaitReply,
            r.0.data@ == Seq::<u8>::empty(),
            r.1 == (AdbPacket {
                cmd: ADB_OPEN,
                arg0: 1u32,
                arg1: 0u32,
                len: cmd.spec_bytes().len() as u32,
                checksum: 0u32,
                magic: ADB_OPEN ^ 0xffffffffu32,
            }),
            r.2@ == cmd.spec_bytes(),
    {
        let payload = cmd.as_bytes_vec();
        let pkt = AdbPacket::new(ADB_OPEN, 1, 0, payload.len() as u32);
        (SimpleCommandSession { phase: SessionPhase::AwaitReply, data: Vec::new() }, pkt, payload)
    }

    /// Advance the session by one received frame. An OKAY first frame is
    /// the open acknowledgement and defers the data to a second frame; any
    /// other first frame already carries the reply payload. The OKAY echo
    /// always carries the first frame's args, swapped. The closing frame's
    /// payload is ignored.
    pub fn on_frame(&mut self, pkt: &AdbPacket, payload: &[u8]) -> (r: SessionAction)
        requires
            old(self).phase != SessionPhase::Done,
        ensures
            old(self).phase == SessionPhase::AwaitReply && pkt.cmd == ADB_OKAY ==> final(self).phase
                == (SessionPhase::AwaitData { arg0: pkt.arg0, arg1: pkt.arg1 }) && final(self).data
                == old(self).data && r == SessionAction::Recv,
            old(self).phase == SessionPhase::AwaitReply && pkt.cmd != ADB_OKAY ==> final(self).phase
                == SessionPhase::AwaitClose && final(self).data@ == payload@ && r
                == (SessionAction::SendOkayThenRecv { arg0: pkt.arg1, arg1: pkt.arg0 }),
            old(self).phase matches SessionPhase::AwaitData { arg0, arg1 } ==> final(self).phase
                == SessionPhase::AwaitClose && final(self).data@ == payload@ && r
                == (SessionAction::SendOkayThenRecv { arg0: arg1, arg1: arg0 }),
            old(self).phase == SessionPhase::AwaitClose ==> final(self).phase == SessionPhase::Done
                && final(self).data == old(self).data && r == SessionAction::Finished,
    {
        match self.phase {
            SessionPhase::AwaitReply => {
                if pkt.cmd == ADB_OKAY {
                    self.phase = SessionPhase::AwaitData { arg0: pkt.arg0, arg1: pkt.arg1 };
                    SessionAction::Recv
                } else {
                    self.data = vstd::slice::slice_to_vec(payload);
                    self.phase = SessionPhase::AwaitClose;
                    SessionAction::SendOkayThenRecv { arg0: pkt.arg1, arg1: pkt.arg0 }
                }
            },
            SessionPhase::AwaitData { arg0, arg1 } => {
                self.data = vstd::slice::slice_to_vec(payload);
                self.phase = SessionPhase::AwaitClose;
                SessionAction::SendOkayThenRecv { arg0: arg1, arg1: arg0 }
            },
            SessionPhase::AwaitClose => {
                self.phase = SessionPhase::Done;
                SessionAction::Finished
            },
            SessionPhase::Done => SessionAction::Finished,
        }
    }

    /// The reply of a completed session: the data payload, trimmed of
    /// trailing ASCII whitespace, as text.
    pub fn finish(self) -> (r: String)
        requires
            self.phase == SessionPhase::Done,
        ensures
            r@ == crate::text::spec_utf8_lossy(crate::text::spec_trim_end(self.data@)),
            vstd::utf8::valid_utf8(crate::text::spec_trim_end(self.data@)) ==> r@
                == vstd::utf8::decode_utf8(crate::text::spec_trim_end(self.data@)),
    {
        let t = crate::text::trim_end_ascii(self.data.as_slice());
        crate::text::bytes_to_string_lossy(t.as_slice())
    }
}

/// The banner payload of the outgoing CNXN frame: `host::` with a trailing
/// NUL, seven bytes, the NUL counted in the frame length.
pub open spec fn spec_connect_banner() -> Seq<u8> {
    seq![0x68u8, 0x6fu8, 0x73u8, 0x74u8, 0x3au8, 0x3au8, 0x00u8]
}

/// The frame and payload that open a connection: CNXN with the protocol
/// version, our maximum payload size, and the host banner.
pub fn connect_request() -> (r: (AdbPacket, Vec<u8>))
    ensures
        r.0 == (AdbPacket {
            cmd: ADB_CONNECT,
            arg0: 0x01000001u32,
            arg1: ADB_MAX_DATA,
            len: 7u32,
            checksum: 0u32,
            magic: ADB_CONNECT ^ 0xffffffffu32,
        }),
        r.1@ == spec_connect_banner(),
{
    let mut banner: Vec<u8> = Vec::new();
    banner.push(0x68);
    banner.push(0x6f);
    banner.push(0x73);
    banner.push(0x74);
    banner.push(0x3a);
    banner.push(0x3a);
    banner.push(0x00);
    proof {
        assert(banner@ =~= spec_connect_banner());
    }
    let pkt = AdbPacket::new(ADB_CONNECT, 0x01000001, ADB_MAX_DATA, banner.len() as u32);
    (pkt, banner)
}

/// The message carried by the protocol error for a bad connect reply.
pub open spec fn spec_cnxn_err_msg(cmd: u32) -> Seq<char> {
    "Expected CNXN reply, got "@ + crate::text::spec_hex_chars(cmd as nat)
}

/// Judge the device's answer to the connect request: anything but a CNXN
/// frame is a protocol error naming the command received; a CNXN frame's
/// payload is the device banner, returned as text.
pub fn connect_reply(pkt: &AdbPacket, payload: &[u8]) -> (r: Result<String, Error>)
    ensures
        r is Ok <==> pkt.cmd == ADB_CONNECT,
        r matches Ok(s) ==> s@ == crate::text::spec_utf8_lossy(payload@),
        r matches Ok(s) ==> (vstd::utf8::valid_utf8(payload@) ==> s@ == vstd::utf8::decode_utf8(
            payload@,
        )),
        r matches Err(e) ==> (e matches Error::Protocol(m) && m@ == spec_cnxn_err_msg(pkt.cmd)),
{
    if pkt.cmd != ADB_CONNECT {
        let mut msg = String::from_str("Expected CNXN reply, got ");
        crate::text::push_hex_u32(&mut msg, pkt.cmd);
        return Err(Error::Protocol(msg));
    }
    Ok(crate::text::bytes_to_string_lossy(payload))
}

/// Law: reading back an encoded header gives the original fields, so a
/// well-formed frame decodes to itself.
pub proof fn lemma_header_roundtrip(p: AdbPacket)
    ensures
        spec_header_fields(spec_encode_header(p)) == p,
        p.wf() ==> spec_header_fields(spec_encode_header(p)).wf(),
{
    lemma_auto_spec_u32_to_from_le_bytes();
    let e = spec_encode_header(p);
    assert(e.subrange(0, 4) =~= spec_u32_to_le_bytes(p.cmd));
    assert(e.subrange(4, 8) =~= spec_u32_to_le_bytes(p.arg0));
    assert(e.subrange(8, 12) =~= spec_u32_to_le_bytes(p.arg1));
    assert(e.subrange(12, 16) =~= spec_u32_to_le_bytes(p.len));
    assert(e.subrange(16, 20) =~= spec_u32_to_le_bytes(p.checksum));
    assert(e.subrange(20, 24) =~= spec_u32_to_le_bytes(p.magic));
}

} // verus!
