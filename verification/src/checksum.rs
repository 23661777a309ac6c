//! The 32-bit cyclic redundancy check that closes every frame.

use vstd::prelude::*;

verus! {

/// The reflected generator polynomial of the check.
pub const POLYNOMIAL: u32 = 0xEDB8_8320;

/// One shift of the register: the low bit leaves, and where it was set the
/// polynomial is folded in.
pub open spec fn shift_once(reg: u32) -> u32 {
    if reg & 1 == 1 {
        (reg >> 1) ^ POLYNOMIAL
    } else {
        reg >> 1
    }
}

/// `count` shifts of the register.
pub open spec fn shift_times(reg: u32, count: nat) -> u32
    decreases count,
{
    if count == 0 {
        reg
    } else {
        shift_once(shift_times(reg, (count - 1) as nat))
    }
}

/// The register after one more byte has been taken in.
pub open spec fn absorb(reg: u32, byte: u8) -> u32 {
    shift_times(reg ^ (byte as u32), 8)
}

/// The register after all of `bytes`, starting from all ones.
pub open spec fn register_after(bytes: Seq<u8>) -> u32
    decreases bytes.len(),
{
    if bytes.len() == 0 {
        0xFFFF_FFFFu32
    } else {
        absorb(register_after(bytes.drop_last()), bytes.last())
    }
}

/// The check value of `bytes`: the final register, inverted.
pub open spec fn crc32_of(bytes: Seq<u8>) -> u32 {
    !register_after(bytes)
}

fn absorb_byte(reg: u32, byte: u8) -> (next: u32)
    ensures
        next == absorb(reg, byte),
{
    let mut cur: u32 = reg ^ (byte as u32);
    let mut round: u8 = 0;
    while round < 8
        invariant
            round <= 8,
            cur == shift_times(reg ^ (byte as u32), round as nat),
        decreases 8 - round,
    {
        cur = if cur & 1 == 1 {
            (cur >> 1) ^ POLYNOMIAL
        } else {
            cur >> 1
        };
        round = round + 1;
    }
    cur
}

/// Computes the check value of `bytes`.
pub fn crc32(bytes: &[u8]) -> (sum: u32)
    ensures
        sum == crc32_of(bytes@),
{
    let mut reg: u32 = 0xFFFF_FFFF;
    let mut at: usize = 0;
    while at < bytes.len()
        invariant
            at <= bytes.len(),
            reg == register_after(bytes@.take(at as int)),
        decreases bytes.len() - at,
    {
        proof {
            let next = bytes@.take(at as int + 1);
            assert(next.drop_last() =~= bytes@.take(at as int));
            assert(next.last() == bytes@[at as int]);
        }
        reg = absorb_byte(reg, bytes[at]);
        at = at + 1;
    }
    proof {
        assert(bytes@.take(at as int) =~= bytes@);
    }
    !reg
}

/// The four bytes of `value`, least significant first: the order in which a
/// checksum travels.
pub open spec fn le_bytes_of(value: u32) -> Seq<u8> {
    seq![
        (value % 256) as u8,
        (value / 256 % 256) as u8,
        (value / 65536 % 256) as u8,
        (value / 16777216) as u8,
    ]
}

/// The number that four bytes spell, least significant first.
pub open spec fn le_value_of(bytes: Seq<u8>) -> u32
    recommends
        bytes.len() == 4,
{
    (bytes[0] + bytes[1] * 256 + bytes[2] * 65536 + bytes[3] * 16777216) as u32
}

/// Lays `value` out in transmission order.
pub fn checksum_bytes(value: u32) -> (bytes: [u8; 4])
    ensures
        bytes@ == le_bytes_of(value),
{
    let bytes: [u8; 4] = [
        (value % 256) as u8,
        (value / 256 % 256) as u8,
        (value / 65536 % 256) as u8,
        (value / 16777216) as u8,
    ];
    proof {
        assert(bytes@ =~= le_bytes_of(value));
    }
    bytes
}

/// Reads four bytes in transmission order back into a number.
pub fn checksum_value(bytes: &[u8; 4]) -> (value: u32)
    ensures
        value == le_value_of(bytes@),
{
    let b0: u32 = bytes[0] as u32;
    let b1: u32 = bytes[1] as u32;
    let b2: u32 = bytes[2] as u32;
    let b3: u32 = bytes[3] as u32;
    b0 + b1 * 256 + b2 * 65536 + b3 * 16777216
}

/// Laying a number out in transmission order and reading it back gives the
/// number again.
pub proof fn lemma_le_round_trip(value: u32)
    ensures
        le_bytes_of(value).len() == 4,
        le_value_of(le_bytes_of(value)) == value,
{
}

/// What comparing a received checksum with the body it came with shows.
#[derive(Clone, Copy, Debug, PartialEq, Eq, Structural)]
pub enum Verdict {
    /// The body's check value is the one that was transmitted.
    Match,
    /// They differ: `expected` was transmitted, `actual` is the check value
    /// of the body as received.
    Mismatch { expected: u32, actual: u32 },
}

/// The verdict on a body and the four checksum bytes received with it.
pub open spec fn verdict_of(body: Seq<u8>, received: Seq<u8>) -> Verdict
    recommends
        received.len() == 4,
{
    if le_value_of(received) == crc32_of(body) {
        Verdict::Match
    } else {
        Verdict::Mismatch { expected: le_value_of(received), actual: crc32_of(body) }
    }
}

/// Recomputes the check value of `body` and compares it with the checksum
/// bytes that were received, read in transmission order. A mismatch is a
/// result like any other: what to make of it is the caller's decision.
pub fn verify_checksum(body: &[u8], received: &[u8; 4]) -> (verdict: Verdict)
    ensures
        verdict == verdict_of(body@, received@),
{
    let expected: u32 = checksum_value(received);
    let actual: u32 = crc32(body);
    if expected == actual {
        Verdict::Match
    } else {
        Verdict::Mismatch { expected, actual }
    }
}

} // verus!
