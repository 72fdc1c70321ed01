//! The wire framing of messages: a big-endian 16-bit length, then the
//! serialised message.

use vstd::prelude::*;

verus! {

/// The longest payload a frame can carry.
pub const MAX_PAYLOAD: usize = 65535;

#[derive(Debug, PartialEq, Eq, Structural)]
pub enum FrameError {
    /// The payload does not fit in a frame ("Message too large").
    TooLarge,
}

/// The two header bytes that announce a payload of `n` bytes.
pub open spec fn length_header(n: nat) -> Seq<u8> {
    seq![(n / 256) as u8, (n % 256) as u8]
}

/// A whole frame: the length header, then the payload.
pub open spec fn frame_bytes(payload: Seq<u8>) -> Seq<u8> {
    length_header(payload.len()) + payload
}

/// The payload length that a header announces.
pub open spec fn announced_length(header: Seq<u8>) -> nat {
    (header[0] as nat) * 256 + (header[1] as nat)
}

/// Frames `payload`, or refuses it when it is longer than a frame allows.
pub fn encode_frame(payload: &[u8]) -> (r: Result<Vec<u8>, FrameError>)
    ensures
        match r {
            Ok(frame) => payload@.len() <= MAX_PAYLOAD && frame@ == frame_bytes(payload@)
                && frame@.len() == payload@.len() + 2
                && frame@[0] as nat == payload@.len() / 256
                && frame@[1] as nat == payload@.len() % 256
                && frame@.skip(2) == payload@,
            Err(e) => payload@.len() > MAX_PAYLOAD && e == FrameError::TooLarge,
        },
{
    let n = payload.len();
    if n > MAX_PAYLOAD {
        return Err(FrameError::TooLarge);
    }
    let mut frame: Vec<u8> = Vec::new();
    frame.push((n / 256) as u8);
    frame.push((n % 256) as u8);
    let mut i: usize = 0;
    while i < n
        invariant
            n == payload@.len(),
            i <= n,
            frame@ == length_header(n as nat) + payload@.subrange(0, i as int),
        decreases n - i,
    {
        frame.push(payload[i]);
        i = i + 1;
        assert(frame@ =~= length_header(n as nat) + payload@.subrange(0, i as int));
    }
    assert(payload@.subrange(0, n as int) =~= payload@);
    proof {
        lemma_frame_header_big_endian(payload@, seq![0u8, 0u8]);
    }
    Ok(frame)
}

/// The payload length announced by a frame header.
pub fn payload_length(header: [u8; 2]) -> (n: usize)
    ensures
        n == announced_length(header@),
        n == (header@[0] as nat) * 256 + (header@[1] as nat),
        n <= MAX_PAYLOAD,
{
    (header[0] as usize) * 256 + (header[1] as usize)
}

/// The header of a frame is the payload's length in two big-endian bytes,
/// high byte first, and a header is read back the same way.
pub proof fn lemma_frame_header_big_endian(payload: Seq<u8>, header: Seq<u8>)
    requires
        payload.len() <= MAX_PAYLOAD,
        header.len() == 2,
    ensures
        frame_bytes(payload).len() == payload.len() + 2,
        frame_bytes(payload)[0] as nat == payload.len() / 256,
        frame_bytes(payload)[1] as nat == payload.len() % 256,
        frame_bytes(payload).skip(2) == payload,
        announced_length(header) == (header[0] as nat) * 256 + (header[1] as nat),
{
    let n = payload.len();
    assert(frame_bytes(payload).skip(2) =~= payload);
    assert((n / 256) as u8 as nat == n / 256);
    assert((n % 256) as u8 as nat == n % 256);
}

/// A frame gives back what was framed: its header announces the payload's
/// length, and the payload follows the header unchanged.
pub proof fn lemma_frame_round_trip(payload: Seq<u8>)
    requires
        payload.len() <= MAX_PAYLOAD,
    ensures
        frame_bytes(payload).len() == payload.len() + 2,
        announced_length(frame_bytes(payload).take(2)) == payload.len(),
        frame_bytes(payload).skip(2) == payload,
{
    assert(frame_bytes(payload).skip(2) =~= payload);
    let n = payload.len();
    assert((n / 256) as u8 as nat == n / 256);
    assert((n % 256) as u8 as nat == n % 256);
}

} // verus!
