//! The frame: how a payload is laid out between its markers before it is
//! cut into packets.
//!
//! A frame is two header bytes, the start marker, the payload, the end
//! marker, the payload's check value in four bytes (least significant
//! first) and the closing marker, followed by padding where a header byte
//! had to be moved off the start marker's value.
//!
//! The header is computed from the length before padding, of which it
//! holds the low sixteen bits, and is not computed again once the padding
//! is on. A header byte that was moved is sent one higher, and the padding
//! that goes with the move is as long as the move is worth, so the header
//! as sent still spells the length of the frame as sent, up to those
//! sixteen bits. Receivers find the frame by its markers, not by the
//! header.
//!
//! Marker values inside the payload or the checksum are not escaped.

use vstd::prelude::*;
use crate::checksum::{checksum_bytes, crc32, crc32_of, le_bytes_of};
use crate::packet::append_range;

verus! {

/// Opens the payload.
pub const START: u8 = 0x02;

/// Closes the payload; the checksum follows.
pub const END: u8 = 0x03;

/// Closes the checksum, and with it the frame.
pub const CHECKSUM_END: u8 = 0x04;

/// Bytes of a frame besides the payload, before any padding: two header
/// bytes, three markers and four bytes of checksum.
pub const OVERHEAD: usize = 9;

/// Most padding that a frame can carry.
pub const MAX_PADDING: usize = 257;

/// What follows the start marker: payload, end marker, checksum, closing
/// marker.
pub open spec fn trailer_of(payload: Seq<u8>) -> Seq<u8> {
    payload + seq![END] + le_bytes_of(crc32_of(payload)) + seq![CHECKSUM_END]
}

/// The length that the header declares: the trailer, two header bytes and
/// the start marker.
pub open spec fn declared_len(payload: Seq<u8>) -> nat {
    payload.len() + 9
}

/// Second-lowest byte of the declared length, as computed.
pub open spec fn raw_high(total: nat) -> nat {
    total / 256 % 256
}

/// Lowest byte of the declared length, as computed.
pub open spec fn raw_low(total: nat) -> nat {
    total % 256
}

/// A header byte as sent: one that would equal the start marker is sent one
/// higher.
pub open spec fn header_byte(raw: nat) -> u8
    recommends
        raw < 256,
{
    if raw == 2 {
        3u8
    } else {
        raw as u8
    }
}

/// Zero bytes appended for the header bytes that were moved: 256 for the
/// high byte, one for the low byte.
pub open spec fn padding_len(total: nat) -> nat {
    let for_high: nat = if raw_high(total) == 2 { 256 } else { 0 };
    let for_low: nat = if raw_low(total) == 2 { 1 } else { 0 };
    for_high + for_low
}

/// `count` zero bytes.
pub open spec fn zeros(count: nat) -> Seq<u8> {
    Seq::new(count, |i: int| 0u8)
}

/// The frame of a payload.
pub open spec fn frame_of(payload: Seq<u8>) -> Seq<u8> {
    let total = declared_len(payload);
    seq![header_byte(raw_high(total)), header_byte(raw_low(total)), START] + trailer_of(payload)
        + zeros(padding_len(total))
}

/// Neither header byte of a frame is the start marker, so the first start
/// marker in a frame is the real one. Where a header byte was moved, the
/// frame is longer than declared by the padding that goes with the move.
pub proof fn lemma_header_avoids_start(payload: Seq<u8>)
    ensures
        frame_of(payload).len() == declared_len(payload) + padding_len(declared_len(payload)),
        frame_of(payload)[0] != START,
        frame_of(payload)[1] != START,
        frame_of(payload)[2] == START,
        raw_high(declared_len(payload)) == 2 ==> frame_of(payload)[0] == 3 && padding_len(
            declared_len(payload),
        ) >= 256,
        raw_low(declared_len(payload)) == 2 ==> frame_of(payload)[1] == 3 && padding_len(
            declared_len(payload),
        ) % 256 == 1,
        raw_high(declared_len(payload)) != 2 ==> frame_of(payload)[0] == raw_high(
            declared_len(payload),
        ),
        raw_low(declared_len(payload)) != 2 ==> frame_of(payload)[1] == raw_low(
            declared_len(payload),
        ),
{
}

/// The two header bytes, read as one number with the high byte first,
/// spell the length of the whole frame, padding included, in sixteen bits.
pub proof fn lemma_header_spells_length(payload: Seq<u8>)
    ensures
        frame_of(payload)[0] * 256 + frame_of(payload)[1] == frame_of(payload).len() % 65536,
{
    let total = declared_len(payload);
    let high = raw_high(total);
    let low = raw_low(total);
    lemma_header_avoids_start(payload);
    assert(total % 65536 == high * 256 + low);
    assert(frame_of(payload)[0] * 256 + frame_of(payload)[1] == total % 65536 + padding_len(
        total,
    ));
    assert(total % 65536 + padding_len(total) < 65536);
}

/// The header bytes are bits 8 to 15 and bits 0 to 7 of the declared
/// length.
pub proof fn lemma_header_bytes_as_bits(total: u64)
    ensures
        raw_high(total as nat) == (total >> 8) & 0xff,
        raw_low(total as nat) == total & 0xff,
{
    assert((total >> 8) & 0xff == total / 256 % 256) by (bit_vector);
    assert(total & 0xff == total % 256) by (bit_vector);
}

/// Builds the frame of `payload`.
pub fn encode(payload: &[u8]) -> (frame: Vec<u8>)
    requires
        payload@.len() + OVERHEAD + MAX_PADDING <= usize::MAX,
    ensures
        frame@ == frame_of(payload@),
        frame@[0] != START,
        frame@[1] != START,
{
    let sum: [u8; 4] = checksum_bytes(crc32(payload));
    let total: usize = payload.len() + OVERHEAD;
    let mut high: u8 = (total / 256 % 256) as u8;
    let mut low: u8 = (total % 256) as u8;
    let mut padding: usize = 0;
    if high == START {
        high = high + 1;
        padding = padding + 256;
    }
    if low == START {
        low = low + 1;
        padding = padding + 1;
    }
    let mut frame: Vec<u8> = Vec::new();
    frame.push(high);
    frame.push(low);
    frame.push(START);
    append_range(&mut frame, payload, 0, payload.len());
    frame.push(END);
    append_range(&mut frame, sum.as_slice(), 0, 4);
    frame.push(CHECKSUM_END);
    proof {
        assert(payload@.subrange(0, payload@.len() as int) =~= payload@);
        assert(sum@.subrange(0, 4) =~= sum@);
        assert(frame@ =~= seq![high, low, START] + trailer_of(payload@));
    }
    let ghost unpadded = frame@;
    let mut added: usize = 0;
    while added < padding
        invariant
            added <= padding,
            frame@ == unpadded + zeros(added as nat),
        decreases padding - added,
    {
        frame.push(0);
        added = added + 1;
        proof {
            assert(frame@ =~= unpadded + zeros(added as nat));
        }
    }
    proof {
        lemma_header_avoids_start(payload@);
    }
    frame
}

} // verus!
