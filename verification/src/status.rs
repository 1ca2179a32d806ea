//! The clientbound status/disconnect packet: a frame whose payload is
//! packet id 0 and a single JSON string.  It rejects a client either as a
//! kick screen (after a Login handshake) or as the server-list entry
//! (after a Status handshake).

use vstd::prelude::*;

use crate::codec::{
    lemma_encode_utf8_len, lemma_varint_bytes_len, string_enc, varint_bytes, write_string,
    write_var_int,
};
use crate::handshake::NextState;

verus! {

use vstd::string::StringExecFns;
use vstd::utf8::encode_utf8;

/// The mathematical content of a status packet: the reason to show, if
/// one was set.
pub struct StatusV {
    pub error: Option<Seq<char>>,
}

/// A clientbound status packet.
#[derive(Debug)]
pub struct Status {
    error: Option<String>,
}

impl Default for Status {
    /// A status packet with no reason set.
    fn default() -> (r: Self)
        ensures
            r@.error is None,
    {
        Self { error: None }
    }
}

impl View for Status {
    type V = StatusV;

    closed spec fn view(&self) -> StatusV {
        StatusV {
            error: match self.error {
                Some(ref e) => Some(e@),
                None => None,
            },
        }
    }
}

/// The chat-component JSON shown as a kick screen.
pub open spec fn text_json(reason: Seq<char>) -> Seq<char> {
    "{\"text\":\""@ + reason + "\"}"@
}

/// The server-list ping JSON: an empty version, no players, the reason as
/// the description.
pub open spec fn motd_json(reason: Seq<char>) -> Seq<char> {
    "{\"version\":{\"name\":\"\",\"protocol\":-1},\"players\":{\"max\":0,\"online\":0,\"sample\":[]},\"description\":{\"text\":\""@
        + reason + "\"}}"@
}

/// The frame that carries a status JSON: the payload is packet id 0 and
/// the JSON as a length-prefixed string, framed by its own length.
pub open spec fn status_frame(json: Seq<char>) -> Seq<u8> {
    let payload = varint_bytes(0) + string_enc(json);
    varint_bytes(payload.len() as u32) + payload
}

/// The rejection frame for an unknown virtual host, in the variant the
/// client's next state asks for.
pub open spec fn backend_not_found_frame(next_state: NextState) -> Seq<u8> {
    match next_state {
        NextState::Login => status_frame(text_json("Backend not found"@)),
        NextState::Status => status_frame(motd_json("Backend not found"@)),
    }
}

impl Status {
    /// A status packet with no reason set.
    pub fn new() -> (r: Self)
        ensures
            r@.error is None,
    {
        Self::default()
    }

    /// A status packet carrying a reason.
    pub fn from_error(error: String) -> (r: Self)
        ensures
            r@.error == Some(error@),
    {
        Self { error: Some(error) }
    }

    /// Appends the frame replying to a Login handshake: the reason inside
    /// a chat-component JSON.  A reason must be set, and short enough for
    /// the frame's length prefix.
    pub fn write_as_text(&self, out: &mut Vec<u8>)
        requires
            self@.error matches Some(r) && r.len() <= 0x0100_0000,
        ensures
            self@.error matches Some(r) ==> final(out)@ == old(out)@ + status_frame(text_json(r)),
    {
        match &self.error {
            Some(reason) => {
                proof {
                    reveal_strlit("{\"text\":\"");
                    reveal_strlit("\"}");
                }
                let mut json = String::from_str("{\"text\":\"");
                json.append(reason.as_str());
                json.append("\"}");
                write_status_frame(json, out);
            },
            None => {},
        }
    }

    /// Appends the frame replying to a Status handshake: the full
    /// server-list ping JSON with the reason as the description.  A
    /// reason must be set, and short enough for the frame's length
    /// prefix.
    pub fn write_as_motd(&self, out: &mut Vec<u8>)
        requires
            self@.error matches Some(r) && r.len() <= 0x0100_0000,
        ensures
            self@.error matches Some(r) ==> final(out)@ == old(out)@ + status_frame(motd_json(r)),
    {
        match &self.error {
            Some(reason) => {
                proof {
                    reveal_strlit(
                        "{\"version\":{\"name\":\"\",\"protocol\":-1},\"players\":{\"max\":0,\"online\":0,\"sample\":[]},\"description\":{\"text\":\"",
                    );
                    reveal_strlit("\"}}");
                }
                let mut json = String::from_str(
                    "{\"version\":{\"name\":\"\",\"protocol\":-1},\"players\":{\"max\":0,\"online\":0,\"sample\":[]},\"description\":{\"text\":\"",
                );
                json.append(reason.as_str());
                json.append("\"}}");
                write_status_frame(json, out);
            },
            None => {},
        }
    }

    /// Appends the rejection frame in the variant the next state asks
    /// for: the kick text for Login, the ping document for Status.
    pub fn write_as(&self, next_state: NextState, out: &mut Vec<u8>)
        requires
            self@.error matches Some(r) && r.len() <= 0x0100_0000,
        ensures
            self@.error matches Some(r) ==> final(out)@ == old(out)@ + (match next_state {
                NextState::Login => status_frame(text_json(r)),
                NextState::Status => status_frame(motd_json(r)),
            }),
    {
        match next_state {
            NextState::Login => self.write_as_text(out),
            NextState::Status => self.write_as_motd(out),
        }
    }
}

/// Appends the frame around a status JSON of fewer than 2^28 bytes.
fn write_status_frame(json: String, out: &mut Vec<u8>)
    requires
        json@.len() <= 0x0200_0000,
    ensures
        final(out)@ == old(out)@ + status_frame(json@),
{
    proof {
        lemma_encode_utf8_len(json@);
    }
    let mut data: Vec<u8> = Vec::new();
    write_var_int(&mut data, 0);
    write_string(&mut data, json.as_str());
    proof {
        lemma_varint_bytes_len(0);
        lemma_varint_bytes_len(encode_utf8(json@).len() as u32);
    }
    write_var_int(out, data.len() as i32);
    out.append(&mut data);
    proof {
        assert(out@ =~= old(out)@ + status_frame(json@));
    }
}

/// The packet that turns away a client whose virtual host has no
/// backend: the fixed reason in the variant the next state asks for.
pub fn backend_not_found_packet(next_state: NextState) -> (r: Vec<u8>)
    ensures
        r@ == backend_not_found_frame(next_state),
{
    proof {
        reveal_strlit("Backend not found");
    }
    let status = Status::from_error(String::from_str("Backend not found"));
    let mut out: Vec<u8> = Vec::new();
    status.write_as(next_state, &mut out);
    out
}

} // verus!
