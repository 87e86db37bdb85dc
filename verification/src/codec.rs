//! Length-prefixed frame codec: each frame on the control socket is a
//! 4-byte big-endian length followed by that many payload bytes.  Frames
//! over 1 MiB are rejected on both sides.

use vstd::prelude::*;
use crate::endian::{be32_bytes, be32_value, lemma_be32_round_trip, u32_from_be, u32_to_be};

verus! {

/// Largest payload a frame may carry (1 MiB).
pub const MAX_FRAME_SIZE: usize = 1048576;

/// Why a byte sequence does not hold a complete frame.
#[derive(Clone, Copy, Debug, PartialEq, Eq, Structural)]
pub enum FrameError {
    /// The length prefix announces a payload over `MAX_FRAME_SIZE`.
    TooLarge,
    /// The input ends inside the prefix or inside the payload.
    Truncated,
}

/// The bytes of one frame around `payload`.
pub open spec fn frame_bytes(payload: Seq<u8>) -> Seq<u8> {
    be32_bytes(payload.len() as u32) + payload
}

/// What reading one frame from the front of `input` yields: `Ok(None)` on
/// empty input (a clean end of stream), the payload and the count of bytes
/// consumed when a whole frame is present, and otherwise the error.
pub open spec fn take_frame_model(input: Seq<u8>) -> Result<Option<(Seq<u8>, int)>, FrameError> {
    if input.len() == 0 {
        Ok(None)
    } else if input.len() < 4 {
        Err(FrameError::Truncated)
    } else {
        let n = be32_value(input.take(4)) as int;
        if n > MAX_FRAME_SIZE {
            Err(FrameError::TooLarge)
        } else if input.len() < 4 + n {
            Err(FrameError::Truncated)
        } else {
            Ok(Some((input.subrange(4, 4 + n), 4 + n)))
        }
    }
}

/// Wrap `payload` in a frame; payloads over `MAX_FRAME_SIZE` are refused.
pub fn encode_frame(payload: &[u8]) -> (r: Result<Vec<u8>, FrameError>)
    ensures
        payload@.len() <= MAX_FRAME_SIZE ==> (r matches Ok(b) && b@ == frame_bytes(payload@)),
        payload@.len() > MAX_FRAME_SIZE ==> r == Err::<Vec<u8>, FrameError>(FrameError::TooLarge),
{
    if payload.len() > MAX_FRAME_SIZE {
        return Err(FrameError::TooLarge);
    }
    let mut out = u32_to_be(payload.len() as u32);
    let mut i: usize = 0;
    while i < payload.len()
        invariant
            i <= payload@.len(),
            payload@.len() <= MAX_FRAME_SIZE,
            out@ == be32_bytes(payload@.len() as u32) + payload@.take(i as int),
        decreases payload@.len() - i,
    {
        out.push(payload[i]);
        proof {
            assert(be32_bytes(payload@.len() as u32) + payload@.take(i + 1) =~= (be32_bytes(
                payload@.len() as u32,
            ) + payload@.take(i as int)).push(payload@[i as int]));
        }
        i = i + 1;
    }
    proof {
        assert(payload@.take(payload@.len() as int) == payload@);
    }
    Ok(out)
}

/// Read one frame from the front of `input`, tolerating a clean end of
/// stream: the lenient reader of a connection loop.  Returns the payload
/// and the number of bytes consumed.
pub fn take_frame(input: &[u8]) -> (r: Result<Option<(Vec<u8>, usize)>, FrameError>)
    ensures
        ({
            match take_frame_model(input@) {
                Ok(Some((p, c))) => r matches Ok(Some((v, n))) && v@ == p && n == c,
                Ok(None) => r matches Ok(None),
                Err(e) => r == Err::<Option<(Vec<u8>, usize)>, FrameError>(e),
            }
        }),
{
    if input.len() == 0 {
        return Ok(None);
    }
    if input.len() < 4 {
        return Err(FrameError::Truncated);
    }
    let n32 = u32_from_be(input, 0);
    proof {
        assert(input@.subrange(0, 4) == input@.take(4));
    }
    let n = n32 as usize;
    if n > MAX_FRAME_SIZE {
        return Err(FrameError::TooLarge);
    }
    if input.len() - 4 < n {
        return Err(FrameError::Truncated);
    }
    let mut payload: Vec<u8> = Vec::new();
    let mut i: usize = 0;
    while i < n
        invariant
            i <= n,
            n <= MAX_FRAME_SIZE,
            4 + n <= input@.len(),
            payload@ == input@.subrange(4, 4 + i as int),
        decreases n - i,
    {
        payload.push(input[4 + i]);
        proof {
            assert(input@.subrange(4, 4 + (i + 1)) =~= input@.subrange(4, 4 + i as int).push(
                input@[4 + i],
            ));
        }
        i = i + 1;
    }
    Ok(Some((payload, 4 + n)))
}

/// Read one frame strictly: an empty input is as much an error as a
/// truncated one.  The reader of a single awaited response.
pub fn decode_frame(input: &[u8]) -> (r: Result<Vec<u8>, FrameError>)
    ensures
        ({
            match take_frame_model(input@) {
                Ok(Some((p, _c))) => r matches Ok(v) && v@ == p,
                Ok(None) => r == Err::<Vec<u8>, FrameError>(FrameError::Truncated),
                Err(e) => r == Err::<Vec<u8>, FrameError>(e),
            }
        }),
{
    match take_frame(input) {
        Ok(Some((payload, _consumed))) => Ok(payload),
        Ok(None) => Err(FrameError::Truncated),
        Err(e) => Err(e),
    }
}

/// The first four bytes of an encoded frame, read as a big-endian `u32`,
/// equal the count of the bytes that follow them.
pub proof fn lemma_frame_length_prefix(payload: Seq<u8>)
    requires
        payload.len() <= MAX_FRAME_SIZE,
    ensures
        frame_bytes(payload).len() == payload.len() + 4,
        frame_bytes(payload).take(4) == be32_bytes(payload.len() as u32),
        be32_value(frame_bytes(payload).take(4)) == payload.len(),
        frame_bytes(payload).skip(4) == payload,
{
    lemma_be32_round_trip(payload.len() as u32);
    assert(frame_bytes(payload).take(4) =~= be32_bytes(payload.len() as u32));
    assert(frame_bytes(payload).skip(4) =~= payload);
}

/// A frame followed by any trailing bytes reads back as exactly its
/// payload, consuming exactly the frame.
pub proof fn lemma_frame_round_trip(payload: Seq<u8>, rest: Seq<u8>)
    requires
        payload.len() <= MAX_FRAME_SIZE,
    ensures
        take_frame_model(frame_bytes(payload) + rest) == Ok::<_, FrameError>(
            Some((payload, 4 + payload.len() as int)),
        ),
{
    let input = frame_bytes(payload) + rest;
    lemma_frame_length_prefix(payload);
    assert(input.take(4) =~= frame_bytes(payload).take(4));
    assert(input.subrange(4, 4 + payload.len() as int) =~= payload);
}

/// Empty input is a clean "no frame", never an error.
pub proof fn lemma_empty_input_no_frame()
    ensures
        take_frame_model(Seq::empty()) == Ok::<Option<(Seq<u8>, int)>, FrameError>(None),
{
}

/// Any input whose length prefix announces more than `MAX_FRAME_SIZE`
/// bytes is rejected with the distinct oversize error.
pub proof fn lemma_oversize_frame_rejected(input: Seq<u8>)
    requires
        input.len() >= 4,
        be32_value(input.take(4)) > MAX_FRAME_SIZE,
    ensures
        take_frame_model(input) == Err::<Option<(Seq<u8>, int)>, FrameError>(FrameError::TooLarge),
{
}

} // verus!
