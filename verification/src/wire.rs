//! The frame format of the game protocol.
//!
//! Every message is a 9-byte header followed by a JSON payload: the total
//! length (`u32`, little endian; the payload length plus 5), the message type
//! (one byte) and the payload length (`u32`, little endian).
use vstd::prelude::*;

verus! {

/// Size of a frame header in bytes.
pub const FRAME_HEADER_LEN: usize = 9;

/// Value of four bytes read as a little-endian `u32`.
pub open spec fn le_u32(b0: u8, b1: u8, b2: u8, b3: u8) -> nat {
    (b0 + 256 * b1 + 65536 * b2 + 16777216 * b3) as nat
}

/// The four little-endian bytes of `x`.
pub open spec fn le_bytes(x: u32) -> Seq<u8> {
    seq![
        (x % 256) as u8,
        ((x / 256) % 256) as u8,
        ((x / 65536) % 256) as u8,
        (x / 16777216) as u8,
    ]
}

/// A frame header as read from the wire.
pub struct FrameHeader {
    pub len: u32,
    pub ty: u8,
    pub str_len: u32,
}

/// Why a frame header is refused.
pub enum FrameError {
    /// The total length is not the payload length plus 5.
    InvalidLength,
}

/// The fields of a 9-byte header.
pub open spec fn header_fields(h: Seq<u8>) -> (nat, u8, nat) {
    (le_u32(h[0], h[1], h[2], h[3]), h[4], le_u32(h[5], h[6], h[7], h[8]))
}

/// Reads a little-endian `u32` at `at`.
fn read_u32_le(buf: &[u8], at: usize) -> (r: u32)
    requires
        at + 4 <= buf@.len(),
    ensures
        r as nat == le_u32(buf@[at as int], buf@[at + 1], buf@[at + 2], buf@[at + 3]),
{
    let b0 = buf[at] as u32;
    let b1 = buf[at + 1] as u32;
    let b2 = buf[at + 2] as u32;
    let b3 = buf[at + 3] as u32;
    b0 + 256 * b1 + 65536 * b2 + 16777216 * b3
}

/// Parses a frame header; the total length must be the payload length plus 5.
/// A payload length above `u32::MAX - 5` is left out: there the length check
/// itself overflows.
pub fn parse_frame_header(buf: &[u8]) -> (r: Result<FrameHeader, FrameError>)
    requires
        buf@.len() == FRAME_HEADER_LEN,
        header_fields(buf@).2 <= u32::MAX - 5,
    ensures
        r is Ok <==> header_fields(buf@).0 == header_fields(buf@).2 + 5,
        r matches Ok(h) ==> h.len as nat == header_fields(buf@).0 && h.ty == header_fields(buf@).1
            && h.str_len as nat == header_fields(buf@).2,
{
    let len = read_u32_le(buf, 0);
    let ty = buf[4];
    let str_len = read_u32_le(buf, 5);
    if len != 5 + str_len {
        return Err(FrameError::InvalidLength);
    }
    Ok(FrameHeader { len, ty, str_len })
}

/// Appends the little-endian bytes of `x`.
fn push_u32_le(out: &mut Vec<u8>, x: u32)
    ensures
        final(out)@ == old(out)@ + le_bytes(x),
{
    out.push((x % 256) as u8);
    out.push(((x / 256) % 256) as u8);
    out.push(((x / 65536) % 256) as u8);
    out.push((x / 16777216) as u8);
    assert(out@ =~= old(out)@ + le_bytes(x));
}

/// A whole frame: the header for `ty` and `payload`, then the payload.
pub open spec fn frame_spec(ty: u8, payload: Seq<u8>) -> Seq<u8> {
    le_bytes((payload.len() + 5) as u32) + seq![ty] + le_bytes(payload.len() as u32) + payload
}

/// Frames a payload of message type `ty`.
pub fn encode_frame(ty: u8, payload: &[u8]) -> (out: Vec<u8>)
    requires
        payload@.len() + 5 <= u32::MAX,
    ensures
        out@ == frame_spec(ty, payload@),
{
    let len = payload.len() as u32;
    let mut out: Vec<u8> = Vec::new();
    push_u32_le(&mut out, 5 + len);
    out.push(ty);
    push_u32_le(&mut out, len);
    let mut i: usize = 0;
    let ghost head = out@;
    while i < payload.len()
        invariant
            i <= payload@.len(),
            out@ == head + payload@.take(i as int),
        decreases payload.len() - i,
    {
        out.push(payload[i]);
        i = i + 1;
        assert(out@ =~= head + payload@.take(i as int));
    }
    assert(payload@.take(payload@.len() as int) =~= payload@);
    out
}

proof fn lemma_le_round_trip(x: u32)
    ensures
        le_u32(le_bytes(x)[0], le_bytes(x)[1], le_bytes(x)[2], le_bytes(x)[3]) == x,
{
}

/// Reading the header of an encoded frame gives back the type and the payload
/// length, the length check passes, and the payload follows the header.
pub proof fn lemma_frame_round_trip(ty: u8, payload: Seq<u8>)
    requires
        payload.len() + 5 <= u32::MAX,
    ensures
        frame_spec(ty, payload).len() == FRAME_HEADER_LEN + payload.len(),
        header_fields(frame_spec(ty, payload).take(9)) == (
            (payload.len() + 5) as nat,
            ty,
            payload.len(),
        ),
        frame_spec(ty, payload).skip(9) == payload,
{
    let f = frame_spec(ty, payload);
    let h = f.take(9);
    lemma_le_round_trip((payload.len() + 5) as u32);
    lemma_le_round_trip(payload.len() as u32);
    assert(f.skip(9) =~= payload);
    assert(h[0] == le_bytes((payload.len() + 5) as u32)[0]);
    assert(h[1] == le_bytes((payload.len() + 5) as u32)[1]);
    assert(h[2] == le_bytes((payload.len() + 5) as u32)[2]);
    assert(h[3] == le_bytes((payload.len() + 5) as u32)[3]);
    assert(h[5] == le_bytes(payload.len() as u32)[0]);
    assert(h[6] == le_bytes(payload.len() as u32)[1]);
    assert(h[7] == le_bytes(payload.len() as u32)[2]);
    assert(h[8] == le_bytes(payload.len() as u32)[3]);
}

} // verus!
