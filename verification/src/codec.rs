//! Wire codec for the Minecraft handshake protocol: VarInts (LEB128-style,
//! 7 data bits per byte, most significant bit = continuation) and
//! length-prefixed UTF-8 strings, read from and written to byte buffers.

use vstd::prelude::*;

verus! {

use vstd::string::StrSliceExecFns;
use vstd::utf8::{decode_utf8, encode_utf8, valid_utf8};

/// Errors of the wire format.
#[derive(Debug, Clone, Copy, PartialEq, Eq, Structural)]
pub enum WireError {
    /// A VarInt encoding asked for a sixth byte.
    VarIntTooLong,
    /// A frame's packet id was not the expected one.
    UnexpectedPacketId,
    /// The buffer ended before the field did.
    ShortRead,
    /// A handshake's next-state field was neither Status nor Login.
    InvalidNextState,
}

/// The VarInt encoding of a 32-bit value: low seven bits first, the high
/// bit of each byte set exactly when more bytes follow.
pub open spec fn varint_bytes(v: u32) -> Seq<u8>
    decreases v,
{
    if v < 0x80 {
        seq![v as u8]
    } else {
        seq![((v % 0x80) + 0x80) as u8] + varint_bytes(v / 0x80)
    }
}

/// 0x80 to the power `k`: the place value of the `k`-th VarInt byte.
pub open spec fn pow128(k: nat) -> nat
    decreases k,
{
    if k == 0 {
        1
    } else {
        0x80 * pow128((k - 1) as nat)
    }
}

/// Reading a VarInt at `pos` with a budget of `max` remaining bytes: the
/// decoded (unbounded) value and the position just past the encoding, or
/// the error.  The budget runs out exactly when a byte past the `max`-th
/// would be needed.
pub open spec fn spec_read_var_int_rec(s: Seq<u8>, pos: int, max: int) -> Result<
    (nat, int),
    WireError,
>
    decreases max,
{
    if max <= 0 {
        Err(WireError::VarIntTooLong)
    } else if pos < 0 || pos >= s.len() {
        Err(WireError::ShortRead)
    } else if s[pos] < 0x80 {
        Ok((s[pos] as nat, pos + 1))
    } else {
        match spec_read_var_int_rec(s, pos + 1, max - 1) {
            Ok((v, end)) => Ok((((s[pos] - 0x80) + 0x80 * v) as nat, end)),
            Err(e) => Err(e),
        }
    }
}

/// Reading a VarInt at `pos`: at most five bytes, the accumulated bits
/// truncated to 32; the result is reinterpreted as `i32` by the reader.
pub open spec fn spec_read_var_int(s: Seq<u8>, pos: int) -> Result<(u32, int), WireError> {
    match spec_read_var_int_rec(s, pos, 5) {
        Ok((v, end)) => Ok(((v % 0x1_0000_0000) as u32, end)),
        Err(e) => Err(e),
    }
}

/// Five bytes are available at `pos` and each asks for a continuation:
/// exactly the buffers on which reading a VarInt at `pos` fails with
/// `VarIntTooLong`.  Only the five bytes at `pos` are mentioned: whether a
/// sixth byte exists, and what it holds, cannot matter.
pub open spec fn varint_too_long_at(s: Seq<u8>, pos: int) -> bool {
    &&& 0 <= pos
    &&& pos + 5 <= s.len()
    &&& forall|j: int| pos <= j < pos + 5 ==> s[j] >= 0x80
}

/// The buffer ends, in fewer than five bytes, before a VarInt at `pos`
/// terminates: exactly the buffers on which reading fails with `ShortRead`.
pub open spec fn varint_short_at(s: Seq<u8>, pos: int) -> bool {
    &&& 0 <= pos
    &&& s.len() < pos + 5
    &&& forall|j: int| pos <= j < s.len() ==> s[j] >= 0x80
}

proof fn lemma_pow128_values()
    ensures
        pow128(0) == 1,
        pow128(1) == 0x80,
        pow128(2) == 0x4000,
        pow128(3) == 0x20_0000,
        pow128(4) == 0x1000_0000,
        pow128(5) == 0x8_0000_0000,
{
    assert(pow128(0) == 1);
    assert(pow128(1) == 0x80);
    assert(pow128(2) == 0x4000);
    assert(pow128(3) == 0x20_0000);
    assert(pow128(4) == 0x1000_0000);
    assert(pow128(5) == 0x8_0000_0000);
}

proof fn lemma_pow128_mono(a: nat, b: nat)
    requires
        a <= b,
    ensures
        pow128(a) <= pow128(b),
    decreases b,
{
    if a < b {
        lemma_pow128_mono(a, (b - 1) as nat);
        assert(pow128(b) == 0x80 * pow128((b - 1) as nat));
    }
}

/// A value read with budget `max` is below `pow128(max)`: each byte
/// contributes seven bits.
proof fn lemma_spec_read_var_int_rec_bound(s: Seq<u8>, pos: int, max: int)
    ensures
        spec_read_var_int_rec(s, pos, max) matches Ok((v, end)) ==> {
            &&& v < pow128(max as nat)
            &&& pos < end <= s.len()
            &&& end - pos <= max
        },
    decreases max,
{
    if max > 0 && 0 <= pos < s.len() {
        if s[pos] < 0x80 {
            lemma_pow128_values();
            lemma_pow128_mono(1, max as nat);
        } else {
            lemma_spec_read_var_int_rec_bound(s, pos + 1, max - 1);
            match spec_read_var_int_rec(s, pos + 1, max - 1) {
                Ok(p) => {
                    assert(pow128(max as nat) == 0x80 * pow128((max - 1) as nat));
                    assert((s[pos] - 0x80) + 0x80 * p.0 < 0x80 * pow128((max - 1) as nat));
                },
                Err(_) => {},
            }
        }
    }
}

/// The error cases of reading a VarInt, characterised over the buffer
/// alone: `VarIntTooLong` exactly when five continuation bytes are there,
/// `ShortRead` exactly when the buffer runs out first.
pub proof fn lemma_read_var_int_errors(s: Seq<u8>, pos: int)
    requires
        0 <= pos,
    ensures
        spec_read_var_int(s, pos) == Err::<(u32, int), WireError>(WireError::VarIntTooLong)
            <==> varint_too_long_at(s, pos),
        spec_read_var_int(s, pos) == Err::<(u32, int), WireError>(WireError::ShortRead)
            <==> varint_short_at(s, pos),
{
    if pos <= s.len() {
        lemma_read_var_int_rec_errors(s, pos, 5);
    }
}

proof fn lemma_read_var_int_rec_errors(s: Seq<u8>, pos: int, max: int)
    requires
        0 <= pos <= s.len(),
        0 <= max <= 5,
    ensures
        spec_read_var_int_rec(s, pos, max) == Err::<(nat, int), WireError>(
            WireError::VarIntTooLong,
        ) <==> (pos + max <= s.len() && forall|j: int| pos <= j < pos + max ==> s[j] >= 0x80),
        spec_read_var_int_rec(s, pos, max) == Err::<(nat, int), WireError>(WireError::ShortRead)
            <==> (s.len() < pos + max && forall|j: int| pos <= j < s.len() ==> s[j] >= 0x80),
    decreases max,
{
    if max > 0 && 0 <= pos < s.len() && s[pos] >= 0x80 {
        lemma_read_var_int_rec_errors(s, pos + 1, max - 1);
    }
}

/// How long the encoding of `v` is: one byte per seven significant bits,
/// at most five for a 32-bit value.
pub proof fn lemma_varint_bytes_len(v: u32)
    ensures
        varint_bytes(v).len() == if v < 0x80 {
            1int
        } else if v < 0x4000 {
            2int
        } else if v < 0x20_0000 {
            3int
        } else if v < 0x1000_0000 {
            4int
        } else {
            5int
        },
    decreases v,
{
    if v >= 0x80 {
        lemma_varint_bytes_len(v / 0x80);
    }
}

proof fn lemma_read_encoded_rec(s: Seq<u8>, pos: int, max: int, v: u32)
    requires
        0 <= pos,
        varint_bytes(v).len() <= max <= 5,
        pos + varint_bytes(v).len() <= s.len(),
        s.subrange(pos, pos + varint_bytes(v).len()) == varint_bytes(v),
    ensures
        spec_read_var_int_rec(s, pos, max) == Ok::<(nat, int), WireError>(
            (v as nat, pos + varint_bytes(v).len()),
        ),
    decreases v,
{
    let enc = varint_bytes(v);
    assert(s[pos] == enc[0]);
    if v < 0x80 {
        assert(s[pos] == v as u8);
    } else {
        let rest = varint_bytes(v / 0x80);
        lemma_varint_bytes_len(v);
        lemma_varint_bytes_len(v / 0x80);
        assert forall|j: int| 0 <= j < rest.len() implies s.subrange(
            pos + 1,
            pos + 1 + rest.len(),
        )[j] == rest[j] by {
            assert(enc[j + 1] == rest[j]);
            assert(s.subrange(pos, pos + enc.len())[j + 1] == enc[j + 1]);
            assert(s[pos + 1 + j] == enc[j + 1]);
        }
        assert(s.subrange(pos + 1, pos + 1 + rest.len()) =~= rest);
        lemma_read_encoded_rec(s, pos + 1, max - 1, v / 0x80);
        assert(s[pos] == ((v % 0x80) + 0x80) as u8);
        assert((s[pos] - 0x80) + 0x80 * ((v / 0x80) as nat) == v);
    }
}

/// Round trip: reading an encoded VarInt from anywhere inside a buffer
/// yields the encoded value and stops just past its last byte.
pub proof fn lemma_read_var_int_encoded(s: Seq<u8>, pos: int, v: u32)
    requires
        0 <= pos,
        pos + varint_bytes(v).len() <= s.len(),
        s.subrange(pos, pos + varint_bytes(v).len()) == varint_bytes(v),
    ensures
        spec_read_var_int(s, pos) == Ok::<(u32, int), WireError>(
            (v, pos + varint_bytes(v).len()),
        ),
{
    lemma_varint_bytes_len(v);
    lemma_read_encoded_rec(s, pos, 5, v);
}

/// Law: for every 32-bit value, decoding the encoding gives the value
/// back.  Stated for `i32` as the protocol reads VarInts: the bytes of
/// `v as u32` decode to a 32-bit quantity that reinterprets as `v`.
pub proof fn lemma_var_int_round_trip(v: i32)
    ensures
        spec_read_var_int(varint_bytes(v as u32), 0) == Ok::<(u32, int), WireError>(
            (v as u32, varint_bytes(v as u32).len() as int),
        ),
        (v as u32) as i32 == v,
{
    let enc = varint_bytes(v as u32);
    assert(enc.subrange(0, enc.len() as int) =~= enc);
    lemma_read_var_int_encoded(enc, 0, v as u32);
    assert((v as u32) as i32 == v) by (bit_vector);
}

/// Law: five continuation bytes decide the failure by themselves.  Any
/// buffer carrying them at `pos` makes the read fail with `VarIntTooLong`,
/// whatever follows: no sixth byte is consumed.
pub proof fn lemma_var_int_too_long(s: Seq<u8>, pos: int)
    requires
        0 <= pos,
        pos + 5 <= s.len(),
        forall|j: int| pos <= j < pos + 5 ==> s[j] >= 0x80,
    ensures
        spec_read_var_int(s, pos) == Err::<(u32, int), WireError>(WireError::VarIntTooLong),
        forall|t: Seq<u8>|
            t.len() >= pos + 5 && (forall|j: int| pos <= j < pos + 5 ==> t[j] == s[j])
                ==> spec_read_var_int(t, pos) == Err::<(u32, int), WireError>(
                WireError::VarIntTooLong,
            ),
{
    lemma_read_var_int_errors(s, pos);
    assert forall|t: Seq<u8>|
        t.len() >= pos + 5 && (forall|j: int| pos <= j < pos + 5 ==> t[j] == s[j])
        implies spec_read_var_int(t, pos) == Err::<(u32, int), WireError>(
        WireError::VarIntTooLong,
    ) by {
        lemma_read_var_int_errors(t, pos);
    }
}

fn read_var_int_rec(bytes: &Vec<u8>, pos: usize, max: usize) -> (r: Result<(u64, usize), WireError>)
    requires
        max <= 5,
    ensures
        match r {
            Ok((v, end)) => spec_read_var_int_rec(bytes@, pos as int, max as int) == Ok::<
                (nat, int),
                WireError,
            >((v as nat, end as int)),
            Err(e) => spec_read_var_int_rec(bytes@, pos as int, max as int) == Err::<
                (nat, int),
                WireError,
            >(e),
        },
    decreases max,
{
    if max == 0 {
        return Err(WireError::VarIntTooLong);
    }
    if pos >= bytes.len() {
        return Err(WireError::ShortRead);
    }
    let b = bytes[pos];
    if b < 0x80 {
        Ok((b as u64, pos + 1))
    } else {
        match read_var_int_rec(bytes, pos + 1, max - 1) {
            Ok((v, end)) => {
                proof {
                    lemma_spec_read_var_int_rec_bound(bytes@, pos as int + 1, max as int - 1);
                    lemma_pow128_mono((max - 1) as nat, 4);
                    lemma_pow128_values();
                }
                Ok((((b - 0x80) as u64) + 0x80 * v, end))
            },
            Err(e) => Err(e),
        }
    }
}

/// Reads a VarInt from `bytes` at `pos`.  On success the value and the
/// position just past the encoding; `VarIntTooLong` exactly when five
/// continuation bytes sit at `pos`, `ShortRead` exactly when the buffer
/// ends before the VarInt does.
pub fn read_var_int(bytes: &Vec<u8>, pos: usize) -> (r: Result<(i32, usize), WireError>)
    ensures
        match r {
            Ok((v, end)) => {
                &&& spec_read_var_int(bytes@, pos as int) matches Ok((sv, send))
                &&& v == sv as i32
                &&& end == send
                &&& pos < end <= bytes@.len()
            },
            Err(e) => spec_read_var_int(bytes@, pos as int) == Err::<(u32, int), WireError>(e),
        },
{
    match read_var_int_rec(bytes, pos, 5) {
        Ok((v, end)) => {
            proof {
                lemma_spec_read_var_int_rec_bound(bytes@, pos as int, 5);
            }
            let low = #[verifier::truncate] (v as u32);
            assert(((v as u32) as u64) == v % 0x1_0000_0000) by (bit_vector);
            Ok((#[verifier::truncate] (low as i32), end))
        },
        Err(e) => Err(e),
    }
}

/// Appends the VarInt encoding of `v` to `out`.
fn write_var_int_u32(out: &mut Vec<u8>, v: u32)
    ensures
        final(out)@ == old(out)@ + varint_bytes(v),
    decreases v,
{
    if v < 0x80 {
        out.push(v as u8);
        assert(out@ =~= old(out)@ + varint_bytes(v));
    } else {
        out.push(#[verifier::truncate] ((v % 0x80 + 0x80) as u8));
        write_var_int_u32(out, v / 0x80);
        assert(out@ =~= old(out)@ + varint_bytes(v));
    }
}

/// Appends the VarInt encoding of `value`, reinterpreted as unsigned, to
/// `out`: `-1` becomes `ff ff ff ff 0f`.
pub fn write_var_int(out: &mut Vec<u8>, value: i32)
    ensures
        final(out)@ == old(out)@ + varint_bytes(value as u32),
{
    write_var_int_u32(out, #[verifier::truncate] (value as u32));
}

/// What `String::from_utf8_lossy` makes of bytes that are not valid
/// UTF-8; never constrained beyond being a function of the bytes.
pub uninterp spec fn lossy_decode(bytes: Seq<u8>) -> Seq<char>;

/// The lossy UTF-8 reading of a byte sequence: exact on valid UTF-8,
/// otherwise whatever the replacement-character rules produce.
pub open spec fn utf8_lossy_decode(bytes: Seq<u8>) -> Seq<char> {
    if valid_utf8(bytes) {
        decode_utf8(bytes)
    } else {
        lossy_decode(bytes)
    }
}

/// Relies on `String::from_utf8_lossy`: its documentation says valid
/// UTF-8 is returned unchanged and that invalid sequences are replaced
/// with U+FFFD, a function of the bytes alone.
#[verifier::external_body]
fn utf8_lossy(bytes: &[u8]) -> (r: String)
    ensures
        r@ == utf8_lossy_decode(bytes@),
        !valid_utf8(bytes@) ==> r@ == lossy_decode(bytes@),
{
    String::from_utf8_lossy(bytes).into_owned()
}

/// The wire shape of a string: the VarInt of its UTF-8 byte length, then
/// the bytes.
pub open spec fn string_enc(s: Seq<char>) -> Seq<u8> {
    varint_bytes(encode_utf8(s).len() as u32) + encode_utf8(s)
}

/// Reading a length-prefixed string at `pos`: the VarInt byte count, then
/// that many bytes, decoded lossily.  A negative count can never be
/// satisfied and reads short, as it would on a stream.
pub open spec fn spec_read_string(s: Seq<u8>, pos: int) -> Result<(Seq<char>, int), WireError> {
    match spec_read_var_int(s, pos) {
        Err(e) => Err(e),
        Ok((n, mid)) => if n >= 0x8000_0000 || mid + n > s.len() {
            Err(WireError::ShortRead)
        } else {
            Ok((utf8_lossy_decode(s.subrange(mid, mid + n)), mid + n))
        },
    }
}

/// Reads a length-prefixed string from `bytes` at `pos`: the decoded
/// string and the position just past its last byte.
pub fn read_string(bytes: &Vec<u8>, pos: usize) -> (r: Result<(String, usize), WireError>)
    ensures
        match r {
            Ok((st, end)) => {
                &&& spec_read_string(bytes@, pos as int) matches Ok((cs, send))
                &&& st@ == cs
                &&& end == send
                &&& pos < end <= bytes@.len()
            },
            Err(e) => spec_read_string(bytes@, pos as int) == Err::<(Seq<char>, int), WireError>(
                e,
            ),
        },
{
    match read_var_int(bytes, pos) {
        Err(e) => Err(e),
        Ok((v, mid)) => {
            let ghost sv = spec_read_var_int(bytes@, pos as int)->Ok_0.0;
            proof {
                assert(((sv as i32) < 0) == (sv >= 0x8000_0000)) by (bit_vector);
            }
            if v < 0 {
                return Err(WireError::ShortRead);
            }
            let n = v as usize;
            if n > bytes.len() - mid {
                return Err(WireError::ShortRead);
            }
            let payload: &[u8] = &bytes.as_slice()[mid..mid + n];
            Ok((utf8_lossy(payload), mid + n))
        },
    }
}

/// Appends the wire form of `string` to `out`: the VarInt of its byte
/// length, then its UTF-8 bytes.  The length must fit the protocol's
/// signed 32-bit VarInt.
pub fn write_string(out: &mut Vec<u8>, string: &str)
    requires
        encode_utf8(string@).len() < 0x8000_0000,
    ensures
        final(out)@ == old(out)@ + string_enc(string@),
{
    let len = string.len();
    write_var_int(out, len as i32);
    let mut bytes = string.as_bytes_vec();
    out.append(&mut bytes);
    proof {
        assert((len as i32) as u32 == len as u32);
        assert(out@ =~= old(out)@ + string_enc(string@));
    }
}

/// A character takes at most four UTF-8 bytes.
pub proof fn lemma_encode_utf8_len(cs: Seq<char>)
    ensures
        encode_utf8(cs).len() <= 4 * cs.len(),
    decreases cs.len(),
{
    if cs.len() > 0 {
        lemma_encode_utf8_len(cs.drop_first());
        assert(vstd::utf8::encode_scalar(cs[0] as u32).len() <= 4);
    }
}

/// Round trip: reading an encoded string from anywhere inside a buffer
/// yields the encoded characters and stops just past their last byte.
pub proof fn lemma_read_string_encoded(s: Seq<u8>, pos: int, cs: Seq<char>)
    requires
        0 <= pos,
        encode_utf8(cs).len() < 0x8000_0000,
        pos + string_enc(cs).len() <= s.len(),
        s.subrange(pos, pos + string_enc(cs).len()) == string_enc(cs),
    ensures
        spec_read_string(s, pos) == Ok::<(Seq<char>, int), WireError>(
            (cs, pos + string_enc(cs).len()),
        ),
{
    broadcast use vstd::utf8::encode_utf8_valid_utf8, vstd::utf8::encode_utf8_decode_utf8;

    let bytes = encode_utf8(cs);
    let blen = bytes.len() as u32;
    let head = varint_bytes(blen);
    assert(s.subrange(pos, pos + head.len()) =~= head) by {
        assert(forall|j: int|
            0 <= j < head.len() ==> #[trigger] s.subrange(pos, pos + string_enc(cs).len())[j]
                == string_enc(cs)[j]);
    }
    lemma_read_var_int_encoded(s, pos, blen);
    let mid = pos + head.len();
    assert forall|j: int| 0 <= j < bytes.len() implies s.subrange(mid, mid + bytes.len())[j]
        == bytes[j] by {
        assert(string_enc(cs)[head.len() + j] == bytes[j]);
        assert(s.subrange(pos, pos + string_enc(cs).len())[head.len() + j] == string_enc(
            cs,
        )[head.len() + j]);
        assert(s[mid + j] == bytes[j]);
    }
    assert(s.subrange(mid, mid + bytes.len()) =~= bytes);
}

/// Law: for every string of byte length under 2^31, reading back a
/// written string yields exactly the string.
pub proof fn lemma_string_round_trip(cs: Seq<char>)
    requires
        encode_utf8(cs).len() < 0x8000_0000,
    ensures
        spec_read_string(string_enc(cs), 0) == Ok::<(Seq<char>, int), WireError>(
            (cs, string_enc(cs).len() as int),
        ),
{
    let enc = string_enc(cs);
    assert(enc.subrange(0, enc.len() as int) =~= enc);
    lemma_read_string_encoded(enc, 0, cs);
}

} // verus!
