//! Messages, and how they are framed on a byte stream.
//!
//! A frame is the length of its payload as four bytes, the lowest first, and then
//! the payload. A stream has no message boundaries of its own, so the receiver
//! needs the length to tell where a message ends.

use vstd::prelude::*;

use crate::game::state::GameState;
use crate::types::Action;

verus! {

/// The longest payload that is sent or accepted: four mebibytes.
///
/// It keeps a broken peer from making the receiver set aside a huge buffer.
pub const MAX_FRAME_LEN: usize = 4_194_304;

/// What a client sends.
#[derive(Debug, Clone, Copy, PartialEq, Eq, Structural)]
pub enum ClientMessage {
    /// The client's input for this tick.
    Input(Action),
}

/// What the host sends.
#[derive(Debug, Clone)]
pub enum ServerMessage {
    /// Sent once, first: which player the client is. Never zero, which is the host.
    Welcome { player_id: usize },
    /// The state of the game after a tick.
    Snapshot(Box<GameState>),
    /// Another player has left.
    PlayerLeft { player_id: usize },
}

/// Why there is no frame.
#[derive(Debug, Clone, Copy, PartialEq, Eq, Structural)]
pub enum FrameError {
    /// The payload would be this long, and that is too long.
    TooLarge(usize),
    /// The stream ends before the frame does.
    Truncated,
}

/// The number as four bytes, the lowest first.
pub open spec fn le_bytes(n: nat) -> Seq<u8> {
    seq![
        (n % 256) as u8,
        ((n / 256) % 256) as u8,
        ((n / 65_536) % 256) as u8,
        ((n / 16_777_216) % 256) as u8,
    ]
}

/// The number that four bytes stand for, the lowest first.
pub open spec fn le_number(bytes: Seq<u8>) -> nat {
    (bytes[0] + bytes[1] * 256 + bytes[2] * 65_536 + bytes[3] * 16_777_216) as nat
}

/// The frame of a payload.
pub open spec fn framed(payload: Seq<u8>) -> Seq<u8> {
    le_bytes(payload.len()) + payload
}

/// What a receiver makes of a stream: the payload of the first frame and the
/// number of bytes that the frame takes up, or why there is none.
pub open spec fn first_frame(stream: Seq<u8>) -> Result<(Seq<u8>, nat), FrameError> {
    if stream.len() < 4 {
        Err(FrameError::Truncated)
    } else {
        let len = le_number(stream.take(4));
        if len > MAX_FRAME_LEN {
            Err(FrameError::TooLarge(len as usize))
        } else if stream.len() < 4 + len {
            Err(FrameError::Truncated)
        } else {
            Ok((stream.subrange(4, (4 + len) as int), 4 + len))
        }
    }
}

/// What a sender makes of a payload: its frame, unless it is too long.
pub open spec fn encoded(payload: Seq<u8>) -> Result<Seq<u8>, FrameError> {
    if payload.len() > MAX_FRAME_LEN {
        Err(FrameError::TooLarge(payload.len() as usize))
    } else {
        Ok(framed(payload))
    }
}

/// The length that a header announces, unless it is too long.
pub open spec fn announced(header: Seq<u8>) -> Result<usize, FrameError> {
    if le_number(header) > MAX_FRAME_LEN {
        Err(FrameError::TooLarge(le_number(header) as usize))
    } else {
        Ok(le_number(header) as usize)
    }
}

/// Puts a payload into a frame.
pub fn encode_frame(payload: &[u8]) -> (frame: Result<Vec<u8>, FrameError>)
    ensures
        match frame {
            Ok(bytes) => encoded(payload@) == Ok::<Seq<u8>, FrameError>(bytes@),
            Err(error) => encoded(payload@) == Err::<Seq<u8>, FrameError>(error),
        },
{
    let len = payload.len();
    if len > MAX_FRAME_LEN {
        return Err(FrameError::TooLarge(len));
    }
    let n = len as u32;
    let mut frame: Vec<u8> = Vec::with_capacity(4 + len);
    frame.push((n % 256) as u8);
    frame.push(((n / 256) % 256) as u8);
    frame.push(((n / 65_536) % 256) as u8);
    frame.push(((n / 16_777_216) % 256) as u8);
    assert(frame@ =~= le_bytes(payload@.len()));
    frame.extend_from_slice(payload);
    assert(frame@ =~= framed(payload@));
    Ok(frame)
}

/// The length of the payload that a header announces, unless it is too long.
pub fn payload_len(header: [u8; 4]) -> (len: Result<usize, FrameError>)
    ensures
        len == announced(header@),
        len matches Ok(n) ==> n == le_number(header@) && n <= MAX_FRAME_LEN,
{
    let n: u32 = header[0] as u32 + header[1] as u32 * 256 + header[2] as u32 * 65_536 + header[3]
        as u32 * 16_777_216;
    let len = n as usize;
    if len > MAX_FRAME_LEN {
        Err(FrameError::TooLarge(len))
    } else {
        Ok(len)
    }
}

/// Reads the frame that starts at `from`: its payload, and where it ends.
pub fn read_frame(stream: &[u8], from: usize) -> (frame: Result<(Vec<u8>, usize), FrameError>)
    requires
        from <= stream@.len(),
    ensures
        match frame {
            Ok((payload, end)) => first_frame(stream@.skip(from as int)) == Ok::<
                (Seq<u8>, nat),
                FrameError,
            >((payload@, (end - from) as nat)) && from <= end <= stream@.len(),
            Err(error) => first_frame(stream@.skip(from as int)) == Err::<
                (Seq<u8>, nat),
                FrameError,
            >(error),
        },
{
    let ghost rest = stream@.skip(from as int);
    if stream.len() - from < 4 {
        return Err(FrameError::Truncated);
    }
    let header = [stream[from], stream[from + 1], stream[from + 2], stream[from + 3]];
    assert(header@ =~= rest.take(4));
    let len = match payload_len(header) {
        Ok(len) => len,
        Err(error) => {
            return Err(error);
        },
    };
    if stream.len() - from - 4 < len {
        return Err(FrameError::Truncated);
    }
    let start = from + 4;
    let end = start + len;
    let mut payload: Vec<u8> = Vec::with_capacity(len);
    for i in start..end
        invariant
            start <= end <= stream@.len(),
            payload@.len() == i - start,
            forall|j: int| 0 <= j < i - start ==> #[trigger] payload@[j] == stream@[start + j],
    {
        payload.push(stream[i]);
    }
    assert(payload@ =~= rest.subrange(4, (4 + len) as int));
    Ok((payload, end))
}

/// Four bytes hold every number below their range, and give it back.
pub proof fn lemma_le_bytes(n: nat)
    requires
        n <= u32::MAX,
    ensures
        le_bytes(n).len() == 4,
        le_number(le_bytes(n)) == n,
{
    let low = n / 256;
    let mid = n / 65_536;
    assert(n / 65_536 == low / 256) by (nonlinear_arith)
        requires
            low == n / 256,
    ;
    assert(n / 16_777_216 == mid / 256) by (nonlinear_arith)
        requires
            mid == n / 65_536,
    ;
}

/// What was framed is read back, whatever follows it on the stream: the payload
/// comes back, and the next frame starts where this one ends.
pub proof fn lemma_frames_read_back(payload: Seq<u8>, rest: Seq<u8>)
    requires
        payload.len() <= MAX_FRAME_LEN,
    ensures
        first_frame(framed(payload) + rest) == Ok::<(Seq<u8>, nat), FrameError>(
            (payload, framed(payload).len()),
        ),
        (framed(payload) + rest).skip(framed(payload).len() as int) == rest,
{
    let stream = framed(payload) + rest;
    lemma_le_bytes(payload.len());
    assert(stream.take(4) =~= le_bytes(payload.len()));
    assert(stream.subrange(4, (4 + payload.len()) as int) =~= payload);
    assert(stream.skip(framed(payload).len() as int) =~= rest);
}

/// A stream of frames, one after the other.
pub open spec fn all_framed(payloads: Seq<Seq<u8>>) -> Seq<u8>
    decreases payloads.len(),
{
    if payloads.len() == 0 {
        seq![]
    } else {
        framed(payloads[0]) + all_framed(payloads.drop_first())
    }
}

/// The first of several frames on a stream is read first, and what it leaves is
/// the stream of the others; at the end the stream is found cut off.
pub proof fn lemma_frames_in_order(payloads: Seq<Seq<u8>>)
    requires
        forall|i: int| 0 <= i < payloads.len() ==> (#[trigger] payloads[i]).len() <= MAX_FRAME_LEN,
    ensures
        payloads.len() == 0 ==> first_frame(all_framed(payloads)) == Err::<
            (Seq<u8>, nat),
            FrameError,
        >(FrameError::Truncated),
        payloads.len() > 0 ==> {
            let end = framed(payloads[0]).len();
            &&& first_frame(all_framed(payloads)) == Ok::<(Seq<u8>, nat), FrameError>(
                (payloads[0], end),
            )
            &&& all_framed(payloads).skip(end as int) == all_framed(payloads.drop_first())
        },
{
    if payloads.len() > 0 {
        lemma_frames_read_back(payloads[0], all_framed(payloads.drop_first()));
    }
}

/// A frame that is cut off anywhere is not read, and neither is anything else in
/// its place.
pub proof fn lemma_truncated_frames_are_refused(payload: Seq<u8>, kept: nat)
    requires
        payload.len() <= MAX_FRAME_LEN,
        kept < framed(payload).len(),
    ensures
        first_frame(framed(payload).take(kept as int)) == Err::<(Seq<u8>, nat), FrameError>(
            FrameError::Truncated,
        ),
{
    let stream = framed(payload).take(kept as int);
    lemma_le_bytes(payload.len());
    if kept >= 4 {
        assert(stream.take(4) =~= le_bytes(payload.len()));
    }
}

/// A frame begins with the length of its payload, the lowest byte first, and goes
/// on with the payload as it is.
pub proof fn lemma_frames_are_laid_out(payload: Seq<u8>, i: int)
    requires
        payload.len() <= 4_194_304,
    ensures
        framed(payload).len() == payload.len() + 4,
        framed(payload)[0] + 256 * framed(payload)[1] + 65_536 * framed(payload)[2] == payload.len(),
        framed(payload)[3] == 0,
        0 <= i < payload.len() ==> framed(payload)[i + 4] == payload[i],
{
    lemma_le_bytes(payload.len());
    let frame = framed(payload);
    let bytes = le_bytes(payload.len());
    assert(frame[0] == bytes[0] && frame[1] == bytes[1] && frame[2] == bytes[2] && frame[3]
        == bytes[3]);
}

/// A stream that announces more than four mebibytes is refused, however long it is,
/// with the length announced.
pub proof fn lemma_long_frames_are_refused(stream: Seq<u8>)
    requires
        stream.len() >= 4,
    ensures
        ({
            let announced = stream[0] + 256 * stream[1] + 65_536 * stream[2] + 16_777_216
                * stream[3];
            &&& announced > 4_194_304 ==> first_frame(stream) == Err::<
                (Seq<u8>, nat),
                FrameError,
            >(FrameError::TooLarge(announced as usize))
            &&& announced <= 4_194_304 && stream.len() >= 4 + announced ==> first_frame(stream)
                == Ok::<(Seq<u8>, nat), FrameError>(
                (stream.subrange(4, 4 + announced), (4 + announced) as nat),
            )
        }),
{
}

/// Exactly the payloads up to four mebibytes are sent, and what is sent is
/// received; longer ones are refused with their length.
pub proof fn lemma_what_is_sent_is_received(payload: Seq<u8>, rest: Seq<u8>)
    requires
        payload.len() <= usize::MAX,
    ensures
        payload.len() <= 4_194_304 ==> (encoded(payload) matches Ok(frame) && first_frame(
            frame + rest,
        ) == Ok::<(Seq<u8>, nat), FrameError>((payload, frame.len()))),
        payload.len() > 4_194_304 ==> encoded(payload) == Err::<Seq<u8>, FrameError>(
            FrameError::TooLarge(payload.len() as usize),
        ),
{
    if payload.len() <= 4_194_304 {
        lemma_frames_read_back(payload, rest);
    }
}

/// A header announces the number that its four bytes make up, the lowest first.
pub proof fn lemma_headers(header: Seq<u8>)
    requires
        header.len() == 4,
    ensures
        ({
            let n = header[0] + 256 * header[1] + 65_536 * header[2] + 16_777_216 * header[3];
            announced(header) == if n <= 4_194_304 {
                Ok::<usize, FrameError>(n as usize)
            } else {
                Err::<usize, FrameError>(FrameError::TooLarge(n as usize))
            }
        }),
{
}

} // verus!
