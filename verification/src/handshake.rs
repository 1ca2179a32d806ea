//! The serverbound handshake packet: the first packet of every
//! connection, carrying the protocol version, the virtual host the client
//! asked for, the port, and whether the client pings or logs in.

use vstd::prelude::*;

use crate::codec::{
    lemma_read_string_encoded, lemma_read_var_int_encoded, lemma_varint_bytes_len, read_string,
    read_var_int, spec_read_string, spec_read_var_int, string_enc, varint_bytes, write_string,
    write_var_int, WireError,
};

verus! {

use vstd::utf8::encode_utf8;

/// What the client does after the handshake: ping the server list
/// (`Status`, code 1) or log in (`Login`, code 2).
#[derive(Debug, Copy, Clone, Eq, PartialEq, Structural)]
pub enum NextState {
    Status,
    Login,
}

/// The wire code of a next-state value.
pub open spec fn next_state_code(ns: NextState) -> i32 {
    match ns {
        NextState::Status => 1,
        NextState::Login => 2,
    }
}

/// The next-state value of a wire code: only 1 and 2 name one.
pub open spec fn spec_next_state(num: i32) -> Result<NextState, WireError> {
    if num == 1 {
        Ok(NextState::Status)
    } else if num == 2 {
        Ok(NextState::Login)
    } else {
        Err(WireError::InvalidNextState)
    }
}

impl NextState {
    /// Converts a wire code to a `NextState`; anything but 1 or 2 is a
    /// protocol error.
    pub fn from_i32(num: i32) -> (r: Result<NextState, WireError>)
        ensures
            r == spec_next_state(num),
    {
        match num {
            1 => Ok(Self::Status),
            2 => Ok(Self::Login),
            _ => Err(WireError::InvalidNextState),
        }
    }

    /// Converts a `NextState` to its wire code.
    pub fn to_i32(self) -> (r: i32)
        ensures
            r == next_state_code(self),
    {
        match self {
            Self::Status => 1,
            Self::Login => 2,
        }
    }
}

/// The mathematical content of a handshake.
pub struct HandshakeV {
    pub version: i32,
    pub hostname: Seq<char>,
    pub port: u16,
    pub next_state: NextState,
}

/// A parsed handshake packet.
#[derive(Debug)]
pub struct Handshake {
    version: i32,
    hostname: String,
    port: u16,
    next_state: NextState,
}

impl View for Handshake {
    type V = HandshakeV;

    closed spec fn view(&self) -> HandshakeV {
        HandshakeV {
            version: self.version,
            hostname: self.hostname@,
            port: self.port,
            next_state: self.next_state,
        }
    }
}

/// A port on the wire: big-endian, high byte first.
pub open spec fn port_bytes(p: u16) -> Seq<u8> {
    seq![(p / 256) as u8, (p % 256) as u8]
}

/// The payload of a handshake frame: packet id 0, then version, virtual
/// host, port and next state.
pub open spec fn handshake_payload(h: HandshakeV) -> Seq<u8> {
    varint_bytes(0) + varint_bytes(h.version as u32) + string_enc(h.hostname) + port_bytes(h.port)
        + varint_bytes(next_state_code(h.next_state) as u32)
}

/// A full handshake frame: the VarInt of the payload length, then the
/// payload.
pub open spec fn handshake_frame(h: HandshakeV) -> Seq<u8> {
    varint_bytes(handshake_payload(h).len() as u32) + handshake_payload(h)
}

/// Parsing the payload of a handshake frame, from its first byte: the
/// packet id must be 0, the next state 1 or 2; trailing payload bytes are
/// ignored, as a reader pulling fields off a cursor ignores them.
pub open spec fn spec_read_handshake_payload(p: Seq<u8>) -> Result<HandshakeV, WireError> {
    match spec_read_var_int(p, 0) {
        Err(e) => Err(e),
        Ok((id, p1)) => if id != 0 {
            Err(WireError::UnexpectedPacketId)
        } else {
            match spec_read_var_int(p, p1) {
                Err(e) => Err(e),
                Ok((ver, p2)) => match spec_read_string(p, p2) {
                    Err(e) => Err(e),
                    Ok((host, p3)) => if p3 + 2 > p.len() {
                        Err(WireError::ShortRead)
                    } else {
                        match spec_read_var_int(p, p3 + 2) {
                            Err(e) => Err(e),
                            Ok((ns, _p4)) => match spec_next_state(ns as i32) {
                                Err(e) => Err(e),
                                Ok(n) => Ok(
                                    HandshakeV {
                                        version: ver as i32,
                                        hostname: host,
                                        port: (p[p3] * 256 + p[p3 + 1]) as u16,
                                        next_state: n,
                                    },
                                ),
                            },
                        }
                    },
                },
            }
        },
    }
}

/// Reading a handshake at `pos`: the frame length, then its payload,
/// which must hold a complete handshake.  A frame longer than the buffer
/// reads short.
pub open spec fn spec_read_handshake(s: Seq<u8>, pos: int) -> Result<(HandshakeV, int), WireError> {
    match spec_read_var_int(s, pos) {
        Err(e) => Err(e),
        Ok((size, p1)) => if size >= 0x8000_0000 || p1 + size > s.len() {
            Err(WireError::ShortRead)
        } else {
            match spec_read_handshake_payload(s.subrange(p1, p1 + size)) {
                Err(e) => Err(e),
                Ok(h) => Ok((h, p1 + size)),
            }
        },
    }
}

/// Law: reading back a written handshake yields every field unchanged,
/// consuming exactly the frame.
pub proof fn lemma_handshake_round_trip(h: HandshakeV)
    requires
        encode_utf8(h.hostname).len() < 0x7FFF_FF00,
    ensures
        spec_read_handshake(handshake_frame(h), 0) == Ok::<(HandshakeV, int), WireError>(
            (h, handshake_frame(h).len() as int),
        ),
{
    let vb0 = varint_bytes(0);
    let vbv = varint_bytes(h.version as u32);
    let se = string_enc(h.hostname);
    let pb = port_bytes(h.port);
    let code = next_state_code(h.next_state);
    let vbn = varint_bytes(code as u32);
    let p = handshake_payload(h);
    let f = handshake_frame(h);

    lemma_varint_bytes_len(0);
    lemma_varint_bytes_len(h.version as u32);
    lemma_varint_bytes_len(encode_utf8(h.hostname).len() as u32);
    lemma_varint_bytes_len(code as u32);

    let o1 = vb0.len() as int;
    let o2 = o1 + vbv.len();
    let o3 = o2 + se.len();
    let o4 = o3 + 2;

    // The frame's length prefix parses to the payload length.
    let fh = varint_bytes(p.len() as u32);
    assert(f.subrange(0, fh.len() as int) =~= fh);
    lemma_read_var_int_encoded(f, 0, p.len() as u32);
    assert(f.subrange(fh.len() as int, fh.len() as int + p.len() as int) =~= p);

    // Each payload field sits at its offset.
    assert(p.subrange(0, o1) =~= vb0);
    lemma_read_var_int_encoded(p, 0, 0);
    assert(p.subrange(o1, o2) =~= vbv);
    lemma_read_var_int_encoded(p, o1, h.version as u32);
    let ver = h.version;
    assert(((ver as u32) as i32) == ver) by (bit_vector);
    assert(p.subrange(o2, o3) =~= se);
    lemma_read_string_encoded(p, o2, h.hostname);
    assert(p[o3] == (h.port / 256) as u8);
    assert(p[o3 + 1] == (h.port % 256) as u8);
    assert(p.subrange(o4, o4 + vbn.len()) =~= vbn);
    lemma_read_var_int_encoded(p, o4, code as u32);
    assert((p[o3] * 256 + p[o3 + 1]) as u16 == h.port);
    assert(spec_next_state((code as u32) as i32) == Ok::<NextState, WireError>(h.next_state));
    assert(spec_read_handshake_payload(p) == Ok::<HandshakeV, WireError>(h));
}

impl Handshake {
    /// A handshake from its fields.
    pub fn new(version: i32, hostname: String, port: u16, next_state: NextState) -> (r: Handshake)
        ensures
            r@.version == version,
            r@.hostname == hostname@,
            r@.port == port,
            r@.next_state == next_state,
    {
        Handshake { version, hostname, port, next_state }
    }

    /// Reads one handshake frame from `bytes` at `pos`: the packet and
    /// the position just past the frame.
    pub fn read(bytes: &Vec<u8>, pos: usize) -> (r: Result<(Handshake, usize), WireError>)
        ensures
            match r {
                Ok((h, end)) => {
                    &&& spec_read_handshake(bytes@, pos as int) matches Ok((hv, send))
                    &&& h@ == hv
                    &&& end == send
                    &&& pos < end <= bytes@.len()
                },
                Err(e) => spec_read_handshake(bytes@, pos as int) == Err::<
                    (HandshakeV, int),
                    WireError,
                >(e),
            },
    {
        let (size, p1) = match read_var_int(bytes, pos) {
            Ok(v) => v,
            Err(e) => {
                return Err(e);
            },
        };
        let ghost ssize = spec_read_var_int(bytes@, pos as int)->Ok_0.0;
        proof {
            assert(((ssize as i32) < 0) == (ssize >= 0x8000_0000)) by (bit_vector);
        }
        if size < 0 {
            return Err(WireError::ShortRead);
        }
        let n = size as usize;
        if n > bytes.len() - p1 {
            return Err(WireError::ShortRead);
        }
        let payload: Vec<u8> = vstd::slice::slice_to_vec(&bytes.as_slice()[p1..p1 + n]);
        let (id, q1) = match read_var_int(&payload, 0) {
            Ok(v) => v,
            Err(e) => {
                return Err(e);
            },
        };
        let ghost sid = spec_read_var_int(payload@, 0)->Ok_0.0;
        proof {
            assert(((sid as i32) == 0) == (sid == 0)) by (bit_vector);
        }
        if id != 0 {
            return Err(WireError::UnexpectedPacketId);
        }
        let (version, q2) = match read_var_int(&payload, q1) {
            Ok(v) => v,
            Err(e) => {
                return Err(e);
            },
        };
        let (hostname, q3) = match read_string(&payload, q2) {
            Ok(v) => v,
            Err(e) => {
                return Err(e);
            },
        };
        if payload.len() - q3 < 2 {
            return Err(WireError::ShortRead);
        }
        let port = (payload[q3] as u16) * 256 + (payload[q3 + 1] as u16);
        let (ns, _q4) = match read_var_int(&payload, q3 + 2) {
            Ok(v) => v,
            Err(e) => {
                return Err(e);
            },
        };
        let next_state = match NextState::from_i32(ns) {
            Ok(v) => v,
            Err(e) => {
                return Err(e);
            },
        };
        Ok((Handshake { version, hostname, port, next_state }, p1 + n))
    }

    /// Appends the full frame of this handshake to `out`.  The virtual
    /// host's byte length must leave the payload length within the
    /// protocol's signed 32-bit VarInt.
    pub fn write(&self, out: &mut Vec<u8>)
        requires
            encode_utf8(self@.hostname).len() < 0x7FFF_FF00,
        ensures
            final(out)@ == old(out)@ + handshake_frame(self@),
    {
        let mut data: Vec<u8> = Vec::new();
        write_var_int(&mut data, 0);
        write_var_int(&mut data, self.version);
        write_string(&mut data, self.hostname.as_str());
        data.push((self.port / 256) as u8);
        data.push((self.port % 256) as u8);
        write_var_int(&mut data, self.next_state.to_i32());
        proof {
            assert(data@ =~= handshake_payload(self@));
            crate::codec::lemma_varint_bytes_len(0);
            crate::codec::lemma_varint_bytes_len(self@.version as u32);
            crate::codec::lemma_varint_bytes_len(encode_utf8(self@.hostname).len() as u32);
            crate::codec::lemma_varint_bytes_len(next_state_code(self@.next_state) as u32);
        }
        write_var_int(out, data.len() as i32);
        out.append(&mut data);
        proof {
            assert(out@ =~= old(out)@ + handshake_frame(self@));
        }
    }

    /// The protocol version the client is using.
    pub fn version(&self) -> (r: i32)
        ensures
            r == self@.version,
    {
        self.version
    }

    /// The virtual host the client asked for.
    pub fn hostname(&self) -> (r: String)
        ensures
            r@ == self@.hostname,
    {
        self.hostname.clone()
    }

    /// The port the client dialled.
    pub fn port(&self) -> (r: u16)
        ensures
            r == self@.port,
    {
        self.port
    }

    /// Whether the client pings or logs in.
    pub fn next_state(&self) -> (r: NextState)
        ensures
            r == self@.next_state,
    {
        self.next_state
    }

    /// Replaces the virtual host, leaving version, port and next state
    /// untouched: the rewrite the proxy performs before forwarding a
    /// handshake upstream.
    pub fn set_hostname(&mut self, hostname: String)
        ensures
            final(self)@.hostname == hostname@,
            final(self)@.version == old(self)@.version,
            final(self)@.port == old(self)@.port,
            final(self)@.next_state == old(self)@.next_state,
    {
        self.hostname = hostname;
    }
}

} // verus!
