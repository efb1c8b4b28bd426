//! The wire format: every value crosses the socket as a frame of 256 bytes
//! whose first byte is the payload length and whose next bytes are the
//! payload, the rest being zero.

use vstd::prelude::*;

verus! {

/// Size of every frame on the wire.
pub const FRAME_SIZE: usize = 256;

/// Longest payload a frame can carry.
pub const MAX_PAYLOAD: usize = 255;

/// The UTF-8 bytes of a text.
pub open spec fn text_bytes(text: Seq<char>) -> Seq<u8> {
    vstd::utf8::encode_utf8(text)
}

/// The frame that carries `payload`: its length, the payload, then zeros.
pub open spec fn frame_of(payload: Seq<u8>) -> Seq<u8> {
    Seq::new(
        256,
        |i: int|
            if i == 0 {
                payload.len() as u8
            } else if i <= payload.len() {
                payload[i - 1]
            } else {
                0u8
            },
    )
}

/// The payload that a frame announces: the bytes after the length byte,
/// as many as the length byte says.
pub open spec fn payload_of(frame: Seq<u8>) -> Seq<u8> {
    frame.subrange(1, frame[0] + 1)
}

fn bytes_to_buffer(bytes: &[u8]) -> (buffer: [u8; 256])
    requires
        bytes@.len() <= MAX_PAYLOAD,
    ensures
        buffer@ == frame_of(bytes@),
{
    let mut buffer: [u8; 256] = [0u8; 256];
    let n: usize = bytes.len();
    buffer[0] = n as u8;
    let mut i: usize = 0;
    while i < n
        invariant
            n == bytes@.len(),
            n <= 255,
            i <= n,
            buffer@.len() == 256,
            buffer@[0] == n as u8,
            forall|j: int| 1 <= j <= i ==> buffer@[j] == bytes@[j - 1],
            forall|j: int| i < j < 256 ==> buffer@[j] == 0,
        decreases n - i,
    {
        buffer[i + 1] = bytes[i];
        i = i + 1;
    }
    assert(buffer@ =~= frame_of(bytes@));
    buffer
}

/// Puts the UTF-8 bytes of `string` into a frame.
pub fn string_to_buffer(string: String) -> (buffer: [u8; 256])
    requires
        text_bytes(string@).len() <= MAX_PAYLOAD,
    ensures
        buffer@ == frame_of(text_bytes(string@)),
{
    let bytes: &[u8] = string.as_str().as_bytes();
    bytes_to_buffer(bytes)
}

/// Puts the bytes of `vec` into a frame.
pub fn vec_to_buffer(vec: &Vec<u8>) -> (buffer: [u8; 256])
    requires
        vec@.len() <= MAX_PAYLOAD,
    ensures
        buffer@ == frame_of(vec@),
{
    bytes_to_buffer(vec.as_slice())
}

/// The payload of a received frame.
pub fn frame_payload(frame: &[u8; 256]) -> (payload: Vec<u8>)
    ensures
        payload@ == payload_of(frame@),
{
    let n: usize = frame[0] as usize;
    let mut payload: Vec<u8> = Vec::new();
    let mut i: usize = 0;
    while i < n
        invariant
            n == frame@[0],
            frame@.len() == 256,
            i <= n,
            payload@ == frame@.subrange(1, i + 1),
        decreases n - i,
    {
        payload.push(frame[i + 1]);
        i = i + 1;
        assert(payload@ =~= frame@.subrange(1, i + 1));
    }
    payload
}

/// Reading a frame back gives exactly the payload that was framed.
pub proof fn lemma_frame_round_trip(payload: Seq<u8>)
    requires
        payload.len() <= MAX_PAYLOAD,
    ensures
        payload_of(frame_of(payload)) == payload,
        frame_of(payload).len() == FRAME_SIZE,
{
    assert(payload_of(frame_of(payload)) =~= payload);
}

/// Two payloads that give the same frame are the same payload.
pub proof fn lemma_frame_injective(p: Seq<u8>, q: Seq<u8>)
    requires
        p.len() <= MAX_PAYLOAD,
        q.len() <= MAX_PAYLOAD,
        frame_of(p) == frame_of(q),
    ensures
        p == q,
{
    lemma_frame_round_trip(p);
    lemma_frame_round_trip(q);
}

} // verus!
