//! Length-prefixed frames: four bytes of big-endian length, then exactly
//! that many bytes of body.
//!
//! A body is the text of one message. Which text stands for which message
//! is the caller's matter; this module puts a body into a frame, finds the
//! frame in the bytes that have arrived, and takes the body out again.

use vstd::arithmetic::div_mod::lemma_fundamental_div_mod_converse;
use vstd::prelude::*;

verus! {

/// Number of bytes in the length prefix of a frame.
pub const HEADER_LEN: usize = 4;

/// Why a body could not be put into a frame, or taken out of one.
#[derive(Debug, Clone, Copy, PartialEq, Eq, Structural)]
pub enum WireError {
    /// The body is longer than a length prefix can say.
    BodyTooLong,
    /// The bytes end before the frame does.
    Incomplete,
    /// Bytes follow the end of the frame.
    TrailingBytes,
}

/// How far the bytes received so far go towards one frame.
#[derive(Debug, Clone, Copy, PartialEq, Eq, Structural)]
pub enum FrameStatus {
    /// No byte of a frame has arrived. A stream that ends here was closed
    /// by the peer between two frames.
    Empty,
    /// A frame has begun and `missing` more bytes must arrive before more
    /// can be said. A stream that ends here broke off inside a frame.
    Partial { missing: u64 },
    /// The first `frame_len` bytes are one whole frame.
    Complete { frame_len: u64 },
}

/// The four bytes that stand for `len`, most significant first.
pub open spec fn length_prefix(len: u32) -> Seq<u8> {
    seq![
        (len / 0x100_0000) as u8,
        ((len / 0x1_0000) % 0x100) as u8,
        ((len / 0x100) % 0x100) as u8,
        (len % 0x100) as u8,
    ]
}

/// The length that the first four bytes stand for.
pub open spec fn prefix_value(bytes: Seq<u8>) -> int {
    bytes[0] * 0x100_0000 + bytes[1] * 0x1_0000 + bytes[2] * 0x100 + bytes[3]
}

/// The frame that carries a body.
pub open spec fn frame_of(body: Seq<u8>) -> Seq<u8> {
    length_prefix(body.len() as u32) + body
}

/// How far `input` goes towards one frame.
pub open spec fn frame_status(input: Seq<u8>) -> FrameStatus {
    if input.len() == 0 {
        FrameStatus::Empty
    } else if input.len() < 4 {
        FrameStatus::Partial { missing: (4 - input.len()) as u64 }
    } else if input.len() < 4 + prefix_value(input) {
        FrameStatus::Partial { missing: (4 + prefix_value(input) - input.len()) as u64 }
    } else {
        FrameStatus::Complete { frame_len: (4 + prefix_value(input)) as u64 }
    }
}

/// The body of the frame that `input` begins with.
pub open spec fn body_of(input: Seq<u8>) -> Seq<u8> {
    input.subrange(4, 4 + prefix_value(input))
}

/// What reading exactly one frame out of `input` gives.
pub open spec fn decoded_frame(input: Seq<u8>) -> Result<Seq<u8>, WireError> {
    match frame_status(input) {
        FrameStatus::Empty => Err(WireError::Incomplete),
        FrameStatus::Partial { .. } => Err(WireError::Incomplete),
        FrameStatus::Complete { frame_len } => if frame_len == input.len() {
            Ok(body_of(input))
        } else {
            Err(WireError::TrailingBytes)
        },
    }
}

/// What it means that the stream ended after `received` bytes of a frame:
/// before the first byte the peer has closed the connection in good order,
/// after it the frame is cut short.
pub open spec fn stream_end(received: Seq<u8>) -> Result<(), WireError> {
    if received.len() == 0 {
        Ok(())
    } else {
        Err(WireError::Incomplete)
    }
}

/// Says what it means that the stream ended after `received` bytes of a
/// frame.
pub fn end_of_stream(received: &[u8]) -> (end: Result<(), WireError>)
    ensures
        end == stream_end(received@),
        end is Ok <==> frame_status(received@) == FrameStatus::Empty,
{
    if received.len() == 0 {
        Ok(())
    } else {
        Err(WireError::Incomplete)
    }
}

/// Writes `len` as a length prefix.
pub fn encode_length(len: u32) -> (prefix: [u8; 4])
    ensures
        prefix@ == length_prefix(len),
{
    let prefix: [u8; 4] = [
        (len / 0x100_0000) as u8,
        ((len / 0x1_0000) % 0x100) as u8,
        ((len / 0x100) % 0x100) as u8,
        (len % 0x100) as u8,
    ];
    assert(prefix@ =~= length_prefix(len));
    prefix
}

/// Reads a length prefix.
pub fn decode_length(prefix: &[u8; 4]) -> (len: u32)
    ensures
        len == prefix_value(prefix@),
{
    let b0: u32 = prefix[0] as u32;
    let b1: u32 = prefix[1] as u32;
    let b2: u32 = prefix[2] as u32;
    let b3: u32 = prefix[3] as u32;
    b0 * 0x100_0000 + b1 * 0x1_0000 + b2 * 0x100 + b3
}

/// Puts a body into a frame.
pub fn encode_frame(body: &[u8]) -> (frame: Result<Vec<u8>, WireError>)
    ensures
        match frame {
            Ok(bytes) => body@.len() <= u32::MAX && bytes@ == frame_of(body@),
            Err(error) => body@.len() > u32::MAX && error == WireError::BodyTooLong,
        },
{
    let n = body.len();
    if n > 0xffff_ffff {
        return Err(WireError::BodyTooLong);
    }
    let prefix = encode_length(n as u32);
    let mut bytes: Vec<u8> = Vec::new();
    bytes.push(prefix[0]);
    bytes.push(prefix[1]);
    bytes.push(prefix[2]);
    bytes.push(prefix[3]);
    let mut i: usize = 0;
    while i < n
        invariant
            n == body@.len(),
            i <= n,
            bytes@ == length_prefix(n as u32) + body@.subrange(0, i as int),
        decreases n - i,
    {
        bytes.push(body[i]);
        assert(body@.subrange(0, i + 1) =~= body@.subrange(0, i as int).push(body@[i as int]));
        assert(bytes@ =~= length_prefix(n as u32) + body@.subrange(0, i + 1));
        i += 1;
    }
    assert(body@.subrange(0, n as int) =~= body@);
    Ok(bytes)
}

/// Says how far `input` goes towards one frame.
pub fn scan_frame(input: &[u8]) -> (status: FrameStatus)
    ensures
        status == frame_status(input@),
{
    let have = input.len();
    if have == 0 {
        FrameStatus::Empty
    } else if have < 4 {
        FrameStatus::Partial { missing: (4 - have) as u64 }
    } else {
        let prefix: [u8; 4] = [input[0], input[1], input[2], input[3]];
        let len = decode_length(&prefix);
        let body_have = have - 4;
        if (body_have as u64) < len as u64 {
            FrameStatus::Partial { missing: len as u64 - body_have as u64 }
        } else {
            FrameStatus::Complete { frame_len: 4 + len as u64 }
        }
    }
}

/// Takes the body out of bytes that are exactly one frame.
pub fn decode_frame(input: &[u8]) -> (body: Result<Vec<u8>, WireError>)
    ensures
        match body {
            Ok(bytes) => decoded_frame(input@) == Ok::<Seq<u8>, WireError>(bytes@),
            Err(error) => decoded_frame(input@) == Err::<Seq<u8>, WireError>(error),
        },
{
    match scan_frame(input) {
        FrameStatus::Empty => Err(WireError::Incomplete),
        FrameStatus::Partial { .. } => Err(WireError::Incomplete),
        FrameStatus::Complete { frame_len } => {
            let end = input.len();
            if frame_len != end as u64 {
                return Err(WireError::TrailingBytes);
            }
            let mut bytes: Vec<u8> = Vec::new();
            let mut i: usize = 4;
            while i < end
                invariant
                    end == input@.len(),
                    4 <= i <= end,
                    bytes@ == input@.subrange(4, i as int),
                decreases end - i,
            {
                bytes.push(input[i]);
                assert(input@.subrange(4, i + 1) =~= input@.subrange(4, i as int).push(
                    input@[i as int],
                ));
                i += 1;
            }
            Ok(bytes)
        },
    }
}

/// A length prefix reads back as the length it was written for.
pub proof fn lemma_length_round_trip(len: u32)
    ensures
        length_prefix(len).len() == 4,
        prefix_value(length_prefix(len)) == len,
{
    let b0: u32 = len / 0x100_0000;
    let b1: u32 = (len / 0x1_0000) % 0x100;
    let b2: u32 = (len / 0x100) % 0x100;
    let b3: u32 = len % 0x100;
    assert(b0 <= 0xff && b1 <= 0xff && b2 <= 0xff && b3 <= 0xff && b0 * 0x100_0000 + b1 * 0x1_0000
        + b2 * 0x100 + b3 == len) by (bit_vector)
        requires
            b0 == len / 0x100_0000,
            b1 == (len / 0x1_0000) % 0x100,
            b2 == (len / 0x100) % 0x100,
            b3 == len % 0x100,
    ;
    let prefix = length_prefix(len);
    assert(prefix[0] == b0 && prefix[1] == b1 && prefix[2] == b2 && prefix[3] == b3);
}

/// Four bytes are the length prefix of the length they stand for.
pub proof fn lemma_prefix_round_trip(prefix: Seq<u8>)
    requires
        prefix.len() == 4,
    ensures
        0 <= prefix_value(prefix) <= u32::MAX,
        length_prefix(prefix_value(prefix) as u32) == prefix,
{
    let b0 = prefix[0] as int;
    let b1 = prefix[1] as int;
    let b2 = prefix[2] as int;
    let b3 = prefix[3] as int;
    let value = prefix_value(prefix);
    lemma_fundamental_div_mod_converse(value, 0x100_0000, b0, b1 * 0x1_0000 + b2 * 0x100 + b3);
    lemma_fundamental_div_mod_converse(value, 0x1_0000, b0 * 0x100 + b1, b2 * 0x100 + b3);
    lemma_fundamental_div_mod_converse(b0 * 0x100 + b1, 0x100, b0, b1);
    lemma_fundamental_div_mod_converse(value, 0x100, b0 * 0x1_0000 + b1 * 0x100 + b2, b3);
    lemma_fundamental_div_mod_converse(b0 * 0x1_0000 + b1 * 0x100 + b2, 0x100, b0 * 0x100 + b1, b2);
    assert(length_prefix(value as u32) =~= prefix);
}

/// A frame reads back as the body it was made of, whatever follows it: the
/// frame of a body is complete, its length is four more than the body's, and
/// its body is the one that went in.
pub proof fn lemma_frame_round_trip(body: Seq<u8>, rest: Seq<u8>)
    requires
        body.len() <= u32::MAX,
    ensures
        frame_status(frame_of(body) + rest) == (FrameStatus::Complete {
            frame_len: (4 + body.len()) as u64,
        }),
        body_of(frame_of(body) + rest) == body,
        decoded_frame(frame_of(body)) == Ok::<Seq<u8>, WireError>(body),
{
    lemma_length_round_trip(body.len() as u32);
    let input = frame_of(body) + rest;
    assert(input[0] == length_prefix(body.len() as u32)[0]);
    assert(input[1] == length_prefix(body.len() as u32)[1]);
    assert(input[2] == length_prefix(body.len() as u32)[2]);
    assert(input[3] == length_prefix(body.len() as u32)[3]);
    assert(prefix_value(input) == body.len());
    assert(body_of(input) =~= body);
    let alone = frame_of(body);
    assert(alone[0] == length_prefix(body.len() as u32)[0]);
    assert(alone[1] == length_prefix(body.len() as u32)[1]);
    assert(alone[2] == length_prefix(body.len() as u32)[2]);
    assert(alone[3] == length_prefix(body.len() as u32)[3]);
    assert(prefix_value(alone) == body.len());
    assert(body_of(alone) =~= body);
}

/// Bytes that stop short of a whole frame are never taken for one: every
/// proper beginning of a frame is empty or partial.
pub proof fn lemma_cut_frame_is_incomplete(body: Seq<u8>, cut: int)
    requires
        body.len() <= u32::MAX,
        0 <= cut < 4 + body.len(),
    ensures
        !(frame_status(frame_of(body).subrange(0, cut)) is Complete),
        cut == 0 <==> frame_status(frame_of(body).subrange(0, cut)) == FrameStatus::Empty,
        cut > 0 ==> frame_status(frame_of(body).subrange(0, cut)) is Partial,
{
    lemma_length_round_trip(body.len() as u32);
    let input = frame_of(body).subrange(0, cut);
    if cut >= 4 {
        assert(input[0] == length_prefix(body.len() as u32)[0]);
        assert(input[1] == length_prefix(body.len() as u32)[1]);
        assert(input[2] == length_prefix(body.len() as u32)[2]);
        assert(input[3] == length_prefix(body.len() as u32)[3]);
        assert(prefix_value(input) == body.len());
    }
}

} // verus!
